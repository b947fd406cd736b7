//! What a command list does on the device, launch by launch.
//!
//! A launch sees the pipeline and the arguments that were set since its encoder was opened. Each
//! shader takes its arguments at fixed places; reading them there says which vectors a launch
//! reads, which one it writes, and of what length they are.

use vstd::prelude::*;

use crate::command::{at, whole, Binding, Command, Pipeline, Tensor};
use crate::constants::ExpertLayout;
use crate::expert::{expert_commands, parts_in, ExpertVectors};
use crate::kernels::{
    after_buffer, after_close, after_dispatch, after_f32, after_finish, after_matvec,
    after_matvec_grid, after_open, after_pipeline, after_project, after_residual_add,
    after_rms_norm_bf16, after_rms_norm_scale, after_rms_norm_sum, after_submit, after_swiglu,
    after_u32, after_weighted_sum, groups_for, law_grid_covers,
};
use crate::weights::LayerDims;

verus! {

/// What is set when a pipeline is launched.
pub struct Arguments<B> {
    pub pipeline: Option<Pipeline>,
    pub buffers: Map<u64, Binding<B>>,
    /// Integers, and bit patterns of single-precision numbers.
    pub numbers: Map<u64, u32>,
}

/// One piece of work of the device.
pub enum Work<B> {
    /// `rows` rows of quantised weights times the vector `x` of `columns` numbers.
    Product {
        two_bit: bool,
        weights: Binding<B>,
        scales: Binding<B>,
        biases: Binding<B>,
        x: Binding<B>,
        out: Binding<B>,
        rows: u32,
        columns: u32,
        group_size: u32,
        covered: bool,
    },
    /// The SiLU of each number of `gate`, times that of `up`.
    Activation {
        gate: Binding<B>,
        up: Binding<B>,
        out: Binding<B>,
        dim: u32,
        covered: bool,
    },
    /// The weighted sum of stacked vectors.
    WeightedSum {
        stacked: Binding<B>,
        weights: Binding<B>,
        out: Binding<B>,
        count: u32,
        dim: u32,
        covered: bool,
    },
    /// The sum of the squares of a vector.
    SquareSum { x: Binding<B>, sum: Binding<B>, dim: u32, groups: u64 },
    /// A vector over its root mean square, times the norm's weights.
    Normed {
        half_weights: bool,
        x: Binding<B>,
        weight: Binding<B>,
        sum: Binding<B>,
        out: Binding<B>,
        dim: u32,
        eps: u32,
        covered: bool,
    },
    /// The sum of two vectors.
    Added { a: Binding<B>, b: Binding<B>, out: Binding<B>, dim: u32, covered: bool },
    /// Scores of queries against cached keys, one group for a score.
    Scores {
        q: Binding<B>,
        keys: Binding<B>,
        scores: Binding<B>,
        head_dim: u32,
        kv_dim: u32,
        seq_len: u32,
        stride: u32,
        scale: u32,
        heads_per_kv: u32,
        per_head: u32,
        groups: u64,
    },
    /// The softmax of each head's scores in place, one group for a head.
    Softmax { scores: Binding<B>, seq_len: u32, stride: u32, groups: u64 },
    /// Cached values weighted by the scores, one thread for a number.
    Values {
        scores: Binding<B>,
        values: Binding<B>,
        out: Binding<B>,
        head_dim: u32,
        kv_dim: u32,
        seq_len: u32,
        stride: u32,
        heads_per_kv: u32,
        groups: u64,
    },
    /// A vector times the sigmoid of another, in place.
    Gated { x: Binding<B>, gate: Binding<B>, dim: u32, covered: bool },
    /// The residual, the shared expert's output and the weighted outputs of the experts, summed.
    Combined {
        residual: Binding<B>,
        shared: Binding<B>,
        out: Binding<B>,
        outputs: Seq<Binding<B>>,
        params: Binding<B>,
        dim: u32,
        count: u32,
        covered: bool,
    },
    /// A command that is a piece of work as it stands.
    Direct(Command<B>),
    /// A launch without a pipeline.
    Idle,
}

/// Just as many groups of `size` as `n` items fill, of 256 threads each.
pub open spec fn covers(groups: u64, threads: u64, n: int, size: int) -> bool {
    threads == 256 && groups * size >= n && (n > 0 ==> (groups - 1) * size < n)
}

/// What a launch does with its arguments.
pub open spec fn work_of<B>(a: Arguments<B>, groups: u64, threads: u64) -> Work<B> {
    let b = a.buffers;
    let n = a.numbers;
    match a.pipeline {
        None => Work::Idle,
        Some(Pipeline::MatvecV3) => Work::Product {
            two_bit: false,
            weights: b[0],
            scales: b[1],
            biases: b[2],
            x: b[3],
            out: b[4],
            rows: n[5],
            columns: n[6],
            group_size: n[7],
            covered: covers(groups, threads, n[5] as int, 8),
        },
        Some(Pipeline::Matvec2bit) => Work::Product {
            two_bit: true,
            weights: b[0],
            scales: b[1],
            biases: b[2],
            x: b[3],
            out: b[4],
            rows: n[5],
            columns: n[6],
            group_size: n[7],
            covered: covers(groups, threads, n[5] as int, 8),
        },
        Some(Pipeline::MatvecFast) => Work::Product {
            two_bit: false,
            weights: b[0],
            scales: b[1],
            biases: b[2],
            x: b[3],
            out: b[4],
            rows: n[5],
            columns: n[6],
            group_size: n[7],
            covered: groups == n[5] && threads == 64,
        },
        Some(Pipeline::MatvecNaive) => Work::Product {
            two_bit: false,
            weights: b[0],
            scales: b[1],
            biases: b[2],
            x: b[3],
            out: b[4],
            rows: n[5],
            columns: n[6],
            group_size: n[7],
            covered: groups == n[5] && threads == 256,
        },
        Some(Pipeline::Swiglu) => Work::Activation {
            gate: b[0],
            up: b[1],
            out: b[2],
            dim: n[3],
            covered: covers(groups, threads, n[3] as int, 256),
        },
        Some(Pipeline::SwigluVec4) => Work::Activation {
            gate: b[0],
            up: b[1],
            out: b[2],
            dim: n[3],
            covered: n[3] % 4 == 0 && covers(groups, threads, n[3] as int / 4, 256),
        },
        Some(Pipeline::WeightedSum) => Work::WeightedSum {
            stacked: b[0],
            weights: b[1],
            out: b[2],
            count: n[3],
            dim: n[4],
            covered: covers(groups, threads, n[4] as int, 256),
        },
        Some(Pipeline::RmsNormSum) => Work::SquareSum { x: b[0], sum: b[1], dim: n[2], groups },
        Some(Pipeline::RmsNormApply) => Work::Normed {
            half_weights: false,
            x: b[0],
            weight: b[1],
            sum: b[2],
            out: b[3],
            dim: n[4],
            eps: n[5],
            covered: covers(groups, threads, n[4] as int, 256),
        },
        Some(Pipeline::RmsNormApplyBf16) => Work::Normed {
            half_weights: true,
            x: b[0],
            weight: b[1],
            sum: b[2],
            out: b[3],
            dim: n[4],
            eps: n[5],
            covered: covers(groups, threads, n[4] as int, 256),
        },
        Some(Pipeline::ResidualAdd) => Work::Added {
            a: b[0],
            b: b[1],
            out: b[2],
            dim: n[3],
            covered: covers(groups, threads, n[3] as int, 256),
        },
        Some(Pipeline::AttnScoresBatched) => Work::Scores {
            q: b[0],
            keys: b[1],
            scores: b[2],
            head_dim: n[3],
            kv_dim: n[4],
            seq_len: n[5],
            stride: n[6],
            scale: n[7],
            heads_per_kv: n[8],
            per_head: n[9],
            groups,
        },
        Some(Pipeline::AttnSoftmaxBatched) => Work::Softmax {
            scores: b[0],
            seq_len: n[1],
            stride: n[2],
            groups,
        },
        Some(Pipeline::AttnValuesBatched) => Work::Values {
            scores: b[0],
            values: b[1],
            out: b[2],
            head_dim: n[3],
            kv_dim: n[4],
            seq_len: n[5],
            stride: n[6],
            heads_per_kv: n[7],
            groups,
        },
        Some(Pipeline::SigmoidGate) => Work::Gated {
            x: b[0],
            gate: b[1],
            dim: n[2],
            covered: covers(groups, threads, n[2] as int, 256),
        },
        Some(Pipeline::MoeCombineResidual) => Work::Combined {
            residual: b[0],
            shared: b[1],
            out: b[2],
            outputs: Seq::new(8, |i: int| b[(3 + i) as u64]),
            params: b[11],
            dim: n[12],
            count: n[13],
            covered: covers(groups, threads, n[12] as int, 256),
        },
    }
}

/// The arguments that are set behind a list of commands. A new encoder starts without any.
pub open spec fn arguments<B>(s: Seq<Command<B>>) -> Arguments<B>
    decreases s.len(),
{
    if s.len() == 0 {
        Arguments { pipeline: None, buffers: Map::empty(), numbers: Map::empty() }
    } else {
        let a = arguments(s.drop_last());
        match s.last() {
            Command::NewEncoder => Arguments {
                pipeline: None,
                buffers: Map::empty(),
                numbers: Map::empty(),
            },
            Command::SetPipeline(p) => Arguments { pipeline: Some(p), ..a },
            Command::SetBuffer { index, binding } => Arguments {
                buffers: a.buffers.insert(index, binding),
                ..a
            },
            Command::SetU32 { index, value } => Arguments {
                numbers: a.numbers.insert(index, value),
                ..a
            },
            Command::SetF32 { index, bits } => Arguments {
                numbers: a.numbers.insert(index, bits),
                ..a
            },
            _ => a,
        }
    }
}

/// The pieces of work of a list of commands, in order.
pub open spec fn works<B>(s: Seq<Command<B>>) -> Seq<Work<B>>
    decreases s.len(),
{
    if s.len() == 0 {
        seq![]
    } else {
        let done = works(s.drop_last());
        match s.last() {
            Command::Dispatch { groups, threads } => done.push(
                work_of(arguments(s.drop_last()), groups, threads),
            ),
            Command::Project { .. } => done.push(Work::Direct(s.last())),
            Command::Conv1dStep { .. } => done.push(Work::Direct(s.last())),
            Command::RmsNormQk { .. } => done.push(Work::Direct(s.last())),
            Command::ComputeDecayBeta { .. } => done.push(Work::Direct(s.last())),
            Command::GatedDeltaNetStep { .. } => done.push(Work::Direct(s.last())),
            Command::GatedRmsNorm { .. } => done.push(Work::Direct(s.last())),
            _ => done,
        }
    }
}

/// What was recorded is submitted and waited for.
pub open spec fn waited_for<B>(s: Seq<Command<B>>) -> bool {
    s.len() >= 3 && s[s.len() - 3] == Command::<B>::EndEncoding && s[s.len() - 2] == Command::<
        B,
    >::Commit && s[s.len() - 1] == Command::<B>::WaitUntilCompleted
}

/// Adding a command adds what it does, and changes nothing before.
pub proof fn lemma_step<B>(s: Seq<Command<B>>, c: Command<B>)
    ensures
        works(s.push(c)) == (match c {
            Command::Dispatch { groups, threads } => works(s).push(
                work_of(arguments(s), groups, threads),
            ),
            Command::Project { .. } => works(s).push(Work::Direct(c)),
            Command::Conv1dStep { .. } => works(s).push(Work::Direct(c)),
            Command::RmsNormQk { .. } => works(s).push(Work::Direct(c)),
            Command::ComputeDecayBeta { .. } => works(s).push(Work::Direct(c)),
            Command::GatedDeltaNetStep { .. } => works(s).push(Work::Direct(c)),
            Command::GatedRmsNorm { .. } => works(s).push(Work::Direct(c)),
            _ => works(s),
        }),
        arguments(s.push(c)) == (match c {
            Command::NewEncoder => Arguments {
                pipeline: None,
                buffers: Map::empty(),
                numbers: Map::empty(),
            },
            Command::SetPipeline(p) => Arguments { pipeline: Some(p), ..arguments(s) },
            Command::SetBuffer { index, binding } => Arguments {
                buffers: arguments(s).buffers.insert(index, binding),
                ..arguments(s)
            },
            Command::SetU32 { index, value } => Arguments {
                numbers: arguments(s).numbers.insert(index, value),
                ..arguments(s)
            },
            Command::SetF32 { index, bits } => Arguments {
                numbers: arguments(s).numbers.insert(index, bits),
                ..arguments(s)
            },
            _ => arguments(s),
        }),
{
    assert(s.push(c).drop_last() =~= s);
}

pub proof fn lemma_set_pipeline<B>(s: Seq<Command<B>>, p: Pipeline)
    ensures
        works(after_pipeline(s, p)) == works(s),
        arguments(after_pipeline(s, p)) == (Arguments { pipeline: Some(p), ..arguments(s) }),
{
    lemma_step(s, Command::SetPipeline(p));
}

pub proof fn lemma_set_buffer<B>(s: Seq<Command<B>>, i: int, b: Binding<B>)
    ensures
        works(after_buffer(s, i, b)) == works(s),
        arguments(after_buffer(s, i, b)) == (Arguments {
            buffers: arguments(s).buffers.insert(i as u64, b),
            ..arguments(s)
        }),
{
    lemma_step(s, Command::SetBuffer { index: i as u64, binding: b });
}

pub proof fn lemma_set_number<B>(s: Seq<Command<B>>, i: int, v: u32)
    ensures
        works(after_u32(s, i, v)) == works(s),
        works(after_f32(s, i, v)) == works(s),
        arguments(after_u32(s, i, v)) == (Arguments {
            numbers: arguments(s).numbers.insert(i as u64, v),
            ..arguments(s)
        }),
        arguments(after_f32(s, i, v)) == (Arguments {
            numbers: arguments(s).numbers.insert(i as u64, v),
            ..arguments(s)
        }),
{
    lemma_step(s, Command::SetU32 { index: i as u64, value: v });
    lemma_step(s, Command::SetF32 { index: i as u64, bits: v });
}

pub proof fn lemma_dispatch<B>(s: Seq<Command<B>>, groups: int, threads: int)
    ensures
        works(after_dispatch(s, groups, threads)) == works(s).push(
            work_of(arguments(s), groups as u64, threads as u64),
        ),
{
    lemma_step(s, Command::Dispatch { groups: groups as u64, threads: threads as u64 });
}

/// Opening, closing and submitting do no work of their own.
pub proof fn lemma_idle<B>(s: Seq<Command<B>>)
    ensures
        works(after_open(s)) == works(s),
        works(after_close(s)) == works(s),
        works(after_submit(s)) == works(s),
        works(after_finish(s)) == works(s),
        waited_for(after_submit(after_close(s))),
        waited_for(after_finish(s)),
{
    lemma_step(s, Command::<B>::NewEncoder);
    lemma_step(s, Command::<B>::EndEncoding);
    lemma_step(s, Command::<B>::Commit);
    lemma_step(s.push(Command::Commit), Command::<B>::WaitUntilCompleted);
    let t = after_close(s);
    lemma_step(t, Command::<B>::Commit);
    lemma_step(t.push(Command::Commit), Command::<B>::WaitUntilCompleted);
}

pub proof fn lemma_group_count(n: u32, size: int)
    requires
        1 <= size <= 256,
    ensures
        ({
            let g = groups_for(n as int, size);
            0 <= g <= n + 255 && g * size >= n && (n > 0 ==> (g - 1) * size < n)
        }),
{
    let g = groups_for(n as int, size);
    law_grid_covers(n as int, size);
    vstd::arithmetic::div_mod::lemma_div_pos_is_pos(n + size - 1, size);
    vstd::arithmetic::div_mod::lemma_div_is_ordered_by_denominator(n + size - 1, 1, size);
}

/// Rows of quantised weights times a vector, on a grid that covers the rows.
pub open spec fn product<B>(
    weights: Binding<B>,
    scales: Binding<B>,
    biases: Binding<B>,
    x: Binding<B>,
    out: Binding<B>,
    rows: u32,
    columns: u32,
    group_size: u32,
) -> Work<B> {
    Work::Product {
        two_bit: false,
        weights,
        scales,
        biases,
        x,
        out,
        rows,
        columns,
        group_size,
        covered: true,
    }
}

/// A matrix of the weight file times a vector.
pub open spec fn projection<B>(
    tensor: Tensor,
    x: B,
    out: B,
    out_dim: usize,
    in_dim: usize,
) -> Work<B> {
    Work::Direct(
        Command::Project {
            tensor,
            x: Binding { buffer: x, offset: 0 },
            out: Binding { buffer: out, offset: 0 },
            out_dim,
            in_dim,
        },
    )
}

/// An expert's activation, on a grid that covers it.
pub open spec fn activation<B>(gate: B, up: B, out: B, dim: u32) -> Work<B> {
    Work::Activation {
        gate: Binding { buffer: gate, offset: 0 },
        up: Binding { buffer: up, offset: 0 },
        out: Binding { buffer: out, offset: 0 },
        dim,
        covered: true,
    }
}

/// A launched product: its weights, scales, biases, vector and result are the buffers given, in
/// that order.
pub proof fn lemma_grid_work<B>(
    s: Seq<Command<B>>,
    p: Pipeline,
    w: Binding<B>,
    scales: Binding<B>,
    biases: Binding<B>,
    x: Binding<B>,
    out: Binding<B>,
    rows: u32,
    columns: u32,
    group_size: u32,
    groups: int,
    threads: int,
)
    requires
        p == Pipeline::MatvecV3 || p == Pipeline::Matvec2bit || p == Pipeline::MatvecFast || p
            == Pipeline::MatvecNaive,
        0 <= groups <= u64::MAX,
        0 <= threads <= u64::MAX,
        p == Pipeline::MatvecV3 || p == Pipeline::Matvec2bit ==> covers(
            groups as u64,
            threads as u64,
            rows as int,
            8,
        ),
        p == Pipeline::MatvecFast ==> groups == rows && threads == 64,
        p == Pipeline::MatvecNaive ==> groups == rows && threads == 256,
    ensures
        works(
            after_matvec_grid(
                s,
                p,
                w,
                scales,
                biases,
                x,
                out,
                rows,
                columns,
                group_size,
                groups,
                threads,
            ),
        ) == works(s).push(
            Work::Product {
                two_bit: p == Pipeline::Matvec2bit,
                weights: w,
                scales,
                biases,
                x,
                out,
                rows,
                columns,
                group_size,
                covered: true,
            },
        ),
{
    lemma_set_pipeline(s, p);
    let s1 = after_pipeline(s, p);
    lemma_set_buffer(s1, 0, w);
    let s2 = after_buffer(s1, 0, w);
    lemma_set_buffer(s2, 1, scales);
    let s3 = after_buffer(s2, 1, scales);
    lemma_set_buffer(s3, 2, biases);
    let s4 = after_buffer(s3, 2, biases);
    lemma_set_buffer(s4, 3, x);
    let s5 = after_buffer(s4, 3, x);
    lemma_set_buffer(s5, 4, out);
    let s6 = after_buffer(s5, 4, out);
    lemma_set_number(s6, 5, rows);
    let s7 = after_u32(s6, 5, rows);
    lemma_set_number(s7, 6, columns);
    let s8 = after_u32(s7, 6, columns);
    lemma_set_number(s8, 7, group_size);
    let s9 = after_u32(s8, 7, group_size);
    lemma_dispatch(s9, groups, threads);
}

/// A product does the same work whichever speed it is asked for: rows of the quantised weights
/// times the vector, into the result, on a grid that covers the rows.
pub proof fn law_matvec_work<B>(
    s: Seq<Command<B>>,
    w: Binding<B>,
    scales: Binding<B>,
    biases: Binding<B>,
    x: Binding<B>,
    out: Binding<B>,
    rows: u32,
    columns: u32,
    group_size: u32,
    use_fast: i32,
)
    ensures
        works(after_matvec(s, w, scales, biases, x, out, rows, columns, group_size, use_fast))
            == works(s).push(product(w, scales, biases, x, out, rows, columns, group_size)),
{
    lemma_group_count(rows, 8);
    let groups = if use_fast >= 3 {
        groups_for(rows as int, 8)
    } else {
        rows as int
    };
    let threads = if use_fast >= 3 {
        256int
    } else if use_fast >= 1 {
        64int
    } else {
        256int
    };
    let p = if use_fast >= 3 {
        Pipeline::MatvecV3
    } else if use_fast >= 1 {
        Pipeline::MatvecFast
    } else {
        Pipeline::MatvecNaive
    };
    lemma_grid_work(s, p, w, scales, biases, x, out, rows, columns, group_size, groups, threads);
}

/// An activation reads the first two buffers and writes the third, whether four numbers at a time
/// or one.
pub proof fn law_activation_work<B>(
    s: Seq<Command<B>>,
    has_vec4: bool,
    gate: Binding<B>,
    up: Binding<B>,
    out: Binding<B>,
    dim: u32,
)
    ensures
        works(after_swiglu(s, has_vec4, gate, up, out, dim)) == works(s).push(
            Work::Activation { gate, up, out, dim, covered: true },
        ),
{
    let vec4 = has_vec4 && dim % 4 == 0;
    let p = if vec4 {
        Pipeline::SwigluVec4
    } else {
        Pipeline::Swiglu
    };
    let n = if vec4 {
        (dim / 4) as u32
    } else {
        dim
    };
    let groups = groups_for(n as int, 256);
    lemma_group_count(n, 256);
    lemma_set_pipeline(s, p);
    let s1 = after_pipeline(s, p);
    lemma_set_buffer(s1, 0, gate);
    let s2 = after_buffer(s1, 0, gate);
    lemma_set_buffer(s2, 1, up);
    let s3 = after_buffer(s2, 1, up);
    lemma_set_buffer(s3, 2, out);
    let s4 = after_buffer(s3, 2, out);
    lemma_set_number(s4, 3, dim);
    let s5 = after_u32(s4, 3, dim);
    lemma_dispatch(s5, groups, 256);
}

/// A weighted sum reads `k` stacked vectors and their weights.
pub proof fn law_weighted_sum_work<B>(
    s: Seq<Command<B>>,
    stacked: B,
    weights: B,
    out: B,
    k: u32,
    dim: u32,
)
    ensures
        works(after_weighted_sum(s, stacked, weights, out, k, dim)) == works(s).push(
            Work::WeightedSum {
                stacked: Binding { buffer: stacked, offset: 0 },
                weights: Binding { buffer: weights, offset: 0 },
                out: Binding { buffer: out, offset: 0 },
                count: k,
                dim,
                covered: true,
            },
        ),
{
    lemma_group_count(dim, 256);
    lemma_set_pipeline(s, Pipeline::WeightedSum);
    let s1 = after_pipeline(s, Pipeline::WeightedSum);
    lemma_set_buffer(s1, 0, whole(stacked));
    let s2 = after_buffer(s1, 0, whole(stacked));
    lemma_set_buffer(s2, 1, whole(weights));
    let s3 = after_buffer(s2, 1, whole(weights));
    lemma_set_buffer(s3, 2, whole(out));
    let s4 = after_buffer(s3, 2, whole(out));
    lemma_set_number(s4, 3, k);
    let s5 = after_u32(s4, 3, k);
    lemma_set_number(s5, 4, dim);
    let s6 = after_u32(s5, 4, dim);
    lemma_dispatch(s6, groups_for(dim as int, 256), 256);
}

pub proof fn lemma_square_sum_work<B>(s: Seq<Command<B>>, x: B, sum: B, dim: u32)
    ensures
        works(after_rms_norm_sum(s, x, sum, dim)) == works(s).push(
            Work::SquareSum { x: whole(x), sum: whole(sum), dim, groups: 1 },
        ),
{
    lemma_set_pipeline(s, Pipeline::RmsNormSum);
    let s1 = after_pipeline(s, Pipeline::RmsNormSum);
    lemma_set_buffer(s1, 0, whole(x));
    let s2 = after_buffer(s1, 0, whole(x));
    lemma_set_buffer(s2, 1, whole(sum));
    let s3 = after_buffer(s2, 1, whole(sum));
    lemma_set_number(s3, 2, dim);
    let s4 = after_u32(s3, 2, dim);
    lemma_dispatch(s4, 1, 256);
}

pub proof fn lemma_normed_work<B>(
    s: Seq<Command<B>>,
    p: Pipeline,
    x: B,
    weight: Binding<B>,
    sum: B,
    out: B,
    dim: u32,
    eps: u32,
)
    requires
        p == Pipeline::RmsNormApply || p == Pipeline::RmsNormApplyBf16,
    ensures
        works(after_rms_norm_scale(s, p, x, weight, sum, out, dim, eps)) == works(s).push(
            Work::Normed {
                half_weights: p == Pipeline::RmsNormApplyBf16,
                x: whole(x),
                weight,
                sum: whole(sum),
                out: whole(out),
                dim,
                eps,
                covered: true,
            },
        ),
{
    lemma_group_count(dim, 256);
    lemma_set_pipeline(s, p);
    let s1 = after_pipeline(s, p);
    lemma_set_buffer(s1, 0, whole(x));
    let s2 = after_buffer(s1, 0, whole(x));
    lemma_set_buffer(s2, 1, weight);
    let s3 = after_buffer(s2, 1, weight);
    lemma_set_buffer(s3, 2, whole(sum));
    let s4 = after_buffer(s3, 2, whole(sum));
    lemma_set_buffer(s4, 3, whole(out));
    let s5 = after_buffer(s4, 3, whole(out));
    lemma_set_number(s5, 4, dim);
    let s6 = after_u32(s5, 4, dim);
    lemma_set_number(s6, 5, eps);
    let s7 = after_f32(s6, 5, eps);
    lemma_dispatch(s7, groups_for(dim as int, 256), 256);
}

/// A norm on the device takes two launches: the sum of the squares of `x`, by one group, and
/// then `x` over its root mean square, times the weights.
pub open spec fn norm_works<B>(
    x: B,
    weight: Binding<B>,
    sum: B,
    out: B,
    dim: u32,
    eps: u32,
) -> Seq<Work<B>> {
    seq![
        Work::SquareSum {
            x: Binding { buffer: x, offset: 0 },
            sum: Binding { buffer: sum, offset: 0 },
            dim,
            groups: 1,
        },
        Work::Normed {
            half_weights: true,
            x: Binding { buffer: x, offset: 0 },
            weight,
            sum: Binding { buffer: sum, offset: 0 },
            out: Binding { buffer: out, offset: 0 },
            dim,
            eps,
            covered: true,
        },
    ]
}

/// A norm with weights of half precision is its two launches, in order.
pub proof fn law_norm_work<B>(
    s: Seq<Command<B>>,
    x: B,
    weight: Binding<B>,
    sum: B,
    out: B,
    dim: u32,
    eps: u32,
)
    ensures
        works(after_rms_norm_bf16(s, x, weight, sum, out, dim, eps)) == works(s) + norm_works(
            x,
            weight,
            sum,
            out,
            dim,
            eps,
        ),
{
    lemma_square_sum_work(s, x, sum, dim);
    let t = after_rms_norm_sum(s, x, sum, dim);
    lemma_normed_work(t, Pipeline::RmsNormApplyBf16, x, weight, sum, out, dim, eps);
}

/// The sum of two vectors on the device.
pub open spec fn sum_work<B>(a: B, b: B, out: B, dim: u32) -> Work<B> {
    Work::Added {
        a: Binding { buffer: a, offset: 0 },
        b: Binding { buffer: b, offset: 0 },
        out: Binding { buffer: out, offset: 0 },
        dim,
        covered: true,
    }
}

/// An addition reads the first two buffers and writes the third.
pub proof fn law_addition_work<B>(s: Seq<Command<B>>, a: B, b: B, out: B, dim: u32)
    ensures
        works(after_residual_add(s, a, b, out, dim)) == works(s).push(sum_work(a, b, out, dim)),
{
    lemma_group_count(dim, 256);
    lemma_set_pipeline(s, Pipeline::ResidualAdd);
    let s1 = after_pipeline(s, Pipeline::ResidualAdd);
    lemma_set_buffer(s1, 0, whole(a));
    let s2 = after_buffer(s1, 0, whole(a));
    lemma_set_buffer(s2, 1, whole(b));
    let s3 = after_buffer(s2, 1, whole(b));
    lemma_set_buffer(s3, 2, whole(out));
    let s4 = after_buffer(s3, 2, whole(out));
    lemma_set_number(s4, 3, dim);
    let s5 = after_u32(s4, 3, dim);
    lemma_dispatch(s5, groups_for(dim as int, 256), 256);
}

pub proof fn lemma_projection_work<B>(
    s: Seq<Command<B>>,
    tensor: Tensor,
    x: B,
    out: B,
    out_dim: usize,
    in_dim: usize,
)
    ensures
        works(after_project(s, tensor, x, out, out_dim, in_dim)) == works(s).push(
            projection(tensor, x, out, out_dim, in_dim),
        ),
{
    lemma_step(s, Command::Project { tensor, x: whole(x), out: whole(out), out_dim, in_dim });
}

/// The four pieces of work of an expert whose packed weights lie in one buffer: its gate and up
/// projections of `x`, their activation, and the down projection of that.
pub open spec fn expert_works<B>(
    data: B,
    l: ExpertLayout,
    v: ExpertVectors<B>,
    hidden: u32,
    inter: u32,
    group_size: u32,
) -> Seq<Work<B>> {
    let part = |off: usize| Binding { buffer: data, offset: off as u64 };
    let vector = |b: B| Binding { buffer: b, offset: 0 };
    seq![
        product(
            part(l.gate_w_off),
            part(l.gate_s_off),
            part(l.gate_b_off),
            vector(v.x),
            vector(v.gate),
            inter,
            hidden,
            group_size,
        ),
        product(
            part(l.up_w_off),
            part(l.up_s_off),
            part(l.up_b_off),
            vector(v.x),
            vector(v.up),
            inter,
            hidden,
            group_size,
        ),
        activation(v.gate, v.up, v.act, inter),
        product(
            part(l.down_w_off),
            part(l.down_s_off),
            part(l.down_b_off),
            vector(v.act),
            vector(v.out),
            hidden,
            inter,
            group_size,
        ),
    ]
}

/// A single expert's program does the expert's four pieces of work, at any speed, and is waited
/// for.
pub proof fn law_expert_work<B>(
    d: LayerDims,
    l: ExpertLayout,
    has_vec4: bool,
    data: B,
    v: ExpertVectors<B>,
    use_fast: i32,
)
    ensures
        ({
            let s = expert_commands(d, has_vec4, parts_in(data, l), v, use_fast);
            &&& works(s) == expert_works(
                data,
                l,
                v,
                d.hidden_dim as u32,
                d.moe_inter as u32,
                d.group_size as u32,
            )
            &&& waited_for(s)
        }),
{
    let p = parts_in(data, l);
    let hidden = d.hidden_dim as u32;
    let inter = d.moe_inter as u32;
    let gs = d.group_size as u32;
    let s0 = Seq::<Command<B>>::empty();
    lemma_idle(s0);
    let s1 = after_open(s0);
    law_matvec_work(
        s1,
        p.gate_w,
        p.gate_s,
        p.gate_b,
        whole(v.x),
        whole(v.gate),
        inter,
        hidden,
        gs,
        use_fast,
    );
    let s2 = after_matvec(
        s1,
        p.gate_w,
        p.gate_s,
        p.gate_b,
        whole(v.x),
        whole(v.gate),
        inter,
        hidden,
        gs,
        use_fast,
    );
    lemma_idle(s2);
    let s3 = after_close(s2);
    lemma_idle(s3);
    let s4 = after_open(s3);
    law_matvec_work(
        s4,
        p.up_w,
        p.up_s,
        p.up_b,
        whole(v.x),
        whole(v.up),
        inter,
        hidden,
        gs,
        use_fast,
    );
    let s5 = after_matvec(
        s4,
        p.up_w,
        p.up_s,
        p.up_b,
        whole(v.x),
        whole(v.up),
        inter,
        hidden,
        gs,
        use_fast,
    );
    lemma_idle(s5);
    let s6 = after_close(s5);
    lemma_idle(s6);
    let s7 = after_open(s6);
    law_activation_work(s7, has_vec4, whole(v.gate), whole(v.up), whole(v.act), inter);
    let s8 = after_swiglu(s7, has_vec4, whole(v.gate), whole(v.up), whole(v.act), inter);
    lemma_idle(s8);
    let s9 = after_close(s8);
    lemma_idle(s9);
    let s10 = after_open(s9);
    law_matvec_work(
        s10,
        p.down_w,
        p.down_s,
        p.down_b,
        whole(v.act),
        whole(v.out),
        hidden,
        inter,
        gs,
        use_fast,
    );
    let s11 = after_matvec(
        s10,
        p.down_w,
        p.down_s,
        p.down_b,
        whole(v.act),
        whole(v.out),
        hidden,
        inter,
        gs,
        use_fast,
    );
    lemma_idle(s11);
    lemma_idle(after_close(s11));
}

} // verus!
