//! Recording of the individual kernels.

use vstd::prelude::*;

use crate::command::{whole, Binding, Command, Pipeline};
use crate::constants::{ROWS_PER_TG, TG_SIZE};

verus! {

/// The number of groups of `size` that cover `n`.
pub open spec fn groups_for(n: int, size: int) -> int {
    (n + size - 1) / size
}

/// The grid of a kernel covers all its elements, and no group of it is empty.
pub proof fn law_grid_covers(n: int, size: int)
    requires
        0 < size,
        0 <= n,
    ensures
        groups_for(n, size) * size >= n,
        n > 0 ==> (groups_for(n, size) - 1) * size < n,
{
    let g = groups_for(n, size);
    let m = n + size - 1;
    vstd::arithmetic::div_mod::lemma_fundamental_div_mod(m, size);
    vstd::arithmetic::div_mod::lemma_mod_bound(m, size);
    assert(g * size == size * g) by (nonlinear_arith);
    assert((g - 1) * size == g * size - size) by (nonlinear_arith);
}

/// The number of groups of `size` that cover `n`.
pub(crate) fn group_count(n: u32, size: u32) -> (g: u64)
    requires
        0 < size,
        n + size - 1 <= u32::MAX,
    ensures
        g == groups_for(n as int, size as int),
{
    ((n + (size - 1)) / size) as u64
}

/// Record a pipeline choice.
pub open spec fn after_pipeline<B>(s: Seq<Command<B>>, p: Pipeline) -> Seq<Command<B>> {
    s.push(Command::SetPipeline(p))
}

/// Record a buffer argument.
pub open spec fn after_buffer<B>(
    s: Seq<Command<B>>,
    index: int,
    binding: Binding<B>,
) -> Seq<Command<B>> {
    s.push(Command::SetBuffer { index: index as u64, binding })
}

/// Record an integer argument.
pub open spec fn after_u32<B>(s: Seq<Command<B>>, index: int, value: u32) -> Seq<Command<B>> {
    s.push(Command::SetU32 { index: index as u64, value })
}

/// Record a single-precision argument.
pub open spec fn after_f32<B>(s: Seq<Command<B>>, index: int, bits: u32) -> Seq<Command<B>> {
    s.push(Command::SetF32 { index: index as u64, bits })
}

/// Record a dispatch.
pub open spec fn after_dispatch<B>(s: Seq<Command<B>>, groups: int, threads: int) -> Seq<
    Command<B>,
> {
    s.push(Command::Dispatch { groups: groups as u64, threads: threads as u64 })
}

pub(crate) fn set_pipeline<B>(enc: &mut Vec<Command<B>>, p: Pipeline)
    ensures
        final(enc)@ == after_pipeline(old(enc)@, p),
{
    enc.push(Command::SetPipeline(p));
}

pub(crate) fn set_buffer<B>(enc: &mut Vec<Command<B>>, index: u64, binding: Binding<B>)
    ensures
        final(enc)@ == after_buffer(old(enc)@, index as int, binding),
{
    enc.push(Command::SetBuffer { index, binding });
}

/// Pass a 32-bit integer at the given index.
pub(crate) fn set_u32<B>(enc: &mut Vec<Command<B>>, index: u64, value: u32)
    ensures
        final(enc)@ == after_u32(old(enc)@, index as int, value),
{
    enc.push(Command::SetU32 { index, value });
}

/// Pass a single-precision number, given by its bits, at the given index.
pub(crate) fn set_f32<B>(enc: &mut Vec<Command<B>>, index: u64, bits: u32)
    ensures
        final(enc)@ == after_f32(old(enc)@, index as int, bits),
{
    enc.push(Command::SetF32 { index, bits });
}

pub(crate) fn dispatch<B>(enc: &mut Vec<Command<B>>, groups: u64, threads: u64)
    ensures
        final(enc)@ == after_dispatch(old(enc)@, groups as int, threads as int),
{
    enc.push(Command::Dispatch { groups, threads });
}

/// The matvec pipeline of a speed level: 3 is tiled, 1 and 2 are one row per SIMD group,
/// anything below is the reference shader.
pub open spec fn matvec_pipeline(use_fast: i32) -> Pipeline {
    if use_fast >= 3 {
        Pipeline::MatvecV3
    } else if use_fast >= 1 {
        Pipeline::MatvecFast
    } else {
        Pipeline::MatvecNaive
    }
}

/// The recording of a dequantising matvec with the given pipeline and grid.
pub open spec fn after_matvec_grid<B>(
    s: Seq<Command<B>>,
    pipeline: Pipeline,
    w: Binding<B>,
    scales: Binding<B>,
    biases: Binding<B>,
    x: Binding<B>,
    out: Binding<B>,
    out_dim: u32,
    in_dim: u32,
    group_size: u32,
    groups: int,
    threads: int,
) -> Seq<Command<B>> {
    let s = after_pipeline(s, pipeline);
    let s = after_buffer(s, 0, w);
    let s = after_buffer(s, 1, scales);
    let s = after_buffer(s, 2, biases);
    let s = after_buffer(s, 3, x);
    let s = after_buffer(s, 4, out);
    let s = after_u32(s, 5, out_dim);
    let s = after_u32(s, 6, in_dim);
    let s = after_u32(s, 7, group_size);
    after_dispatch(s, groups, threads)
}

/// The recording of a dequantising matvec: the tiled shader gets one group per
/// `ROWS_PER_TG` rows, the others one group per row.
pub open spec fn after_matvec<B>(
    s: Seq<Command<B>>,
    w: Binding<B>,
    scales: Binding<B>,
    biases: Binding<B>,
    x: Binding<B>,
    out: Binding<B>,
    out_dim: u32,
    in_dim: u32,
    group_size: u32,
    use_fast: i32,
) -> Seq<Command<B>> {
    after_matvec_grid(
        s,
        matvec_pipeline(use_fast),
        w,
        scales,
        biases,
        x,
        out,
        out_dim,
        in_dim,
        group_size,
        if use_fast >= 3 {
            groups_for(out_dim as int, ROWS_PER_TG as int)
        } else {
            out_dim as int
        },
        if use_fast >= 3 {
            TG_SIZE as int
        } else if use_fast >= 1 {
            64
        } else {
            256
        },
    )
}

/// Record a dequantising matvec with a given pipeline and grid.
pub(crate) fn record_matvec<B>(
    enc: &mut Vec<Command<B>>,
    pipeline: Pipeline,
    w: Binding<B>,
    scales: Binding<B>,
    biases: Binding<B>,
    x: Binding<B>,
    out: Binding<B>,
    out_dim: u32,
    in_dim: u32,
    group_size: u32,
    groups: u64,
    threads: u64,
)
    ensures
        final(enc)@ == after_matvec_grid(
            old(enc)@,
            pipeline,
            w,
            scales,
            biases,
            x,
            out,
            out_dim,
            in_dim,
            group_size,
            groups as int,
            threads as int,
        ),
{
    set_pipeline(enc, pipeline);
    set_buffer(enc, 0, w);
    set_buffer(enc, 1, scales);
    set_buffer(enc, 2, biases);
    set_buffer(enc, 3, x);
    set_buffer(enc, 4, out);
    set_u32(enc, 5, out_dim);
    set_u32(enc, 6, in_dim);
    set_u32(enc, 7, group_size);
    dispatch(enc, groups, threads);
}

/// Record a dequantising matvec with the tiled shader.
pub fn encode_matvec_v3<B>(
    enc: &mut Vec<Command<B>>,
    w_packed: Binding<B>,
    scales: Binding<B>,
    biases: Binding<B>,
    x: Binding<B>,
    out: Binding<B>,
    out_dim: u32,
    in_dim: u32,
    group_size: u32,
)
    requires
        out_dim + ROWS_PER_TG - 1 <= u32::MAX,
    ensures
        final(enc)@ == after_matvec(
            old(enc)@,
            w_packed,
            scales,
            biases,
            x,
            out,
            out_dim,
            in_dim,
            group_size,
            3,
        ),
{
    let num_tgs: u64 = group_count(out_dim, ROWS_PER_TG);
    record_matvec(
        enc,
        Pipeline::MatvecV3,
        w_packed,
        scales,
        biases,
        x,
        out,
        out_dim,
        in_dim,
        group_size,
        num_tgs,
        TG_SIZE as u64,
    );
}

/// Record a dequantising matvec into an open encoder.
pub fn encode_matvec_offset<B>(
    enc: &mut Vec<Command<B>>,
    w_packed: Binding<B>,
    scales: Binding<B>,
    biases: Binding<B>,
    x: Binding<B>,
    out: Binding<B>,
    out_dim: u32,
    in_dim: u32,
    group_size: u32,
    use_fast: i32,
)
    requires
        use_fast >= 3 ==> out_dim + ROWS_PER_TG - 1 <= u32::MAX,
    ensures
        final(enc)@ == after_matvec(
            old(enc)@,
            w_packed,
            scales,
            biases,
            x,
            out,
            out_dim,
            in_dim,
            group_size,
            use_fast,
        ),
{
    let pipeline = if use_fast >= 3 {
        Pipeline::MatvecV3
    } else if use_fast >= 1 {
        Pipeline::MatvecFast
    } else {
        Pipeline::MatvecNaive
    };
    let groups: u64 = if use_fast >= 3 {
        group_count(out_dim, ROWS_PER_TG)
    } else {
        out_dim as u64
    };
    let threads: u64 = if use_fast >= 3 {
        TG_SIZE as u64
    } else if use_fast >= 1 {
        64
    } else {
        256
    };
    record_matvec(
        enc,
        pipeline,
        w_packed,
        scales,
        biases,
        x,
        out,
        out_dim,
        in_dim,
        group_size,
        groups,
        threads,
    );
}

/// Open an encoder.
pub open spec fn after_open<B>(s: Seq<Command<B>>) -> Seq<Command<B>> {
    s.push(Command::NewEncoder)
}

/// Close an encoder.
pub open spec fn after_close<B>(s: Seq<Command<B>>) -> Seq<Command<B>> {
    s.push(Command::EndEncoding)
}

/// Submit the commands.
pub open spec fn after_commit<B>(s: Seq<Command<B>>) -> Seq<Command<B>> {
    s.push(Command::Commit)
}

/// Close the encoder, submit and wait.
pub open spec fn after_finish<B>(s: Seq<Command<B>>) -> Seq<Command<B>> {
    after_commit(after_close(s)).push(Command::WaitUntilCompleted)
}

/// Submit and wait, with no encoder open.
pub open spec fn after_submit<B>(s: Seq<Command<B>>) -> Seq<Command<B>> {
    after_commit(s).push(Command::WaitUntilCompleted)
}

/// Submit and wait, with no encoder open.
pub fn submit<B>(enc: &mut Vec<Command<B>>)
    ensures
        final(enc)@ == after_submit(old(enc)@),
{
    enc.push(Command::Commit);
    enc.push(Command::WaitUntilCompleted);
}

/// Open an encoder.
pub fn open_encoder<B>(enc: &mut Vec<Command<B>>)
    ensures
        final(enc)@ == after_open(old(enc)@),
{
    enc.push(Command::NewEncoder);
}

/// Close the encoder.
pub fn end_encoding<B>(enc: &mut Vec<Command<B>>)
    ensures
        final(enc)@ == after_close(old(enc)@),
{
    enc.push(Command::EndEncoding);
}

/// Submit without waiting.
pub fn commit<B>(enc: &mut Vec<Command<B>>)
    ensures
        final(enc)@ == after_commit(old(enc)@),
{
    enc.push(Command::Commit);
}

/// Close the encoder, submit and wait.
pub fn finish<B>(enc: &mut Vec<Command<B>>)
    ensures
        final(enc)@ == after_finish(old(enc)@),
{
    enc.push(Command::EndEncoding);
    enc.push(Command::Commit);
    enc.push(Command::WaitUntilCompleted);
}

/// A dequantising matvec as a command list of its own, on whole buffers.
pub fn metal_dequant_matvec<B>(
    w_packed: B,
    scales: B,
    biases: B,
    x: B,
    out: B,
    out_dim: u32,
    in_dim: u32,
    group_size: u32,
    use_fast: i32,
) -> (r: Vec<Command<B>>)
    requires
        use_fast >= 3 ==> out_dim + ROWS_PER_TG - 1 <= u32::MAX,
    ensures
        r@ == after_finish(
            after_matvec(
                after_open(Seq::empty()),
                whole(w_packed),
                whole(scales),
                whole(biases),
                whole(x),
                whole(out),
                out_dim,
                in_dim,
                group_size,
                use_fast,
            ),
        ),
{
    let mut enc: Vec<Command<B>> = Vec::new();
    open_encoder(&mut enc);
    encode_matvec_offset(
        &mut enc,
        whole(w_packed),
        whole(scales),
        whole(biases),
        whole(x),
        whole(out),
        out_dim,
        in_dim,
        group_size,
        use_fast,
    );
    finish(&mut enc);
    enc
}

/// The recording of a SwiGLU activation. The vectorised shader is used where it exists and
/// the dimension is a multiple of four; its grid counts vectors of four.
pub open spec fn after_swiglu<B>(
    s: Seq<Command<B>>,
    has_vec4: bool,
    gate: Binding<B>,
    up: Binding<B>,
    out: Binding<B>,
    dim: u32,
) -> Seq<Command<B>> {
    let vec4 = has_vec4 && dim % 4 == 0;
    let s = after_pipeline(
        s,
        if vec4 {
            Pipeline::SwigluVec4
        } else {
            Pipeline::Swiglu
        },
    );
    let s = after_buffer(s, 0, gate);
    let s = after_buffer(s, 1, up);
    let s = after_buffer(s, 2, out);
    let s = after_u32(s, 3, dim);
    after_dispatch(
        s,
        groups_for(
            if vec4 {
                dim as int / 4
            } else {
                dim as int
            },
            256,
        ),
        256,
    )
}

/// Record a SwiGLU activation into an open encoder.
pub fn encode_swiglu<B>(
    enc: &mut Vec<Command<B>>,
    has_vec4: bool,
    gate: Binding<B>,
    up: Binding<B>,
    out: Binding<B>,
    dim: u32,
)
    requires
        dim + 255 <= u32::MAX,
    ensures
        final(enc)@ == after_swiglu(old(enc)@, has_vec4, gate, up, out, dim),
{
    if has_vec4 && dim % 4 == 0 {
        set_pipeline(enc, Pipeline::SwigluVec4);
        set_buffer(enc, 0, gate);
        set_buffer(enc, 1, up);
        set_buffer(enc, 2, out);
        set_u32(enc, 3, dim);
        let vec_dim: u32 = dim / 4;
        let num_tgs: u64 = group_count(vec_dim, 256);
        dispatch(enc, num_tgs, 256);
        return;
    }
    set_pipeline(enc, Pipeline::Swiglu);
    set_buffer(enc, 0, gate);
    set_buffer(enc, 1, up);
    set_buffer(enc, 2, out);
    set_u32(enc, 3, dim);
    let num_tgs: u64 = group_count(dim, 256);
    dispatch(enc, num_tgs, 256);
}

/// A SwiGLU activation as a command list of its own.
pub fn metal_swiglu<B>(has_vec4: bool, gate: B, up: B, out: B, dim: u32) -> (r: Vec<Command<B>>)
    requires
        dim + 255 <= u32::MAX,
    ensures
        r@ == after_finish(
            after_swiglu(
                after_open(Seq::empty()),
                has_vec4,
                whole(gate),
                whole(up),
                whole(out),
                dim,
            ),
        ),
{
    let mut enc: Vec<Command<B>> = Vec::new();
    open_encoder(&mut enc);
    encode_swiglu(&mut enc, has_vec4, whole(gate), whole(up), whole(out), dim);
    finish(&mut enc);
    enc
}

/// The recording of a weighted sum of `k` stacked vectors.
pub open spec fn after_weighted_sum<B>(
    s: Seq<Command<B>>,
    stacked: B,
    weights: B,
    out: B,
    k: u32,
    dim: u32,
) -> Seq<Command<B>> {
    let s = after_pipeline(s, Pipeline::WeightedSum);
    let s = after_buffer(s, 0, whole(stacked));
    let s = after_buffer(s, 1, whole(weights));
    let s = after_buffer(s, 2, whole(out));
    let s = after_u32(s, 3, k);
    let s = after_u32(s, 4, dim);
    after_dispatch(s, groups_for(dim as int, 256), 256)
}

/// Record a weighted sum of `k` stacked vectors into an open encoder.
pub fn encode_weighted_sum<B>(
    enc: &mut Vec<Command<B>>,
    stacked: B,
    weights: B,
    out: B,
    k: u32,
    dim: u32,
)
    requires
        dim + 255 <= u32::MAX,
    ensures
        final(enc)@ == after_weighted_sum(old(enc)@, stacked, weights, out, k, dim),
{
    set_pipeline(enc, Pipeline::WeightedSum);
    set_buffer(enc, 0, whole(stacked));
    set_buffer(enc, 1, whole(weights));
    set_buffer(enc, 2, whole(out));
    set_u32(enc, 3, k);
    set_u32(enc, 4, dim);
    let num_tgs: u64 = group_count(dim, 256);
    dispatch(enc, num_tgs, 256);
}

/// A weighted sum as a command list of its own.
pub fn metal_weighted_sum<B>(stacked: B, weights: B, out: B, k: u32, dim: u32) -> (r: Vec<
    Command<B>,
>)
    requires
        dim + 255 <= u32::MAX,
    ensures
        r@ == after_finish(
            after_weighted_sum(after_open(Seq::empty()), stacked, weights, out, k, dim),
        ),
{
    let mut enc: Vec<Command<B>> = Vec::new();
    open_encoder(&mut enc);
    encode_weighted_sum(&mut enc, stacked, weights, out, k, dim);
    finish(&mut enc);
    enc
}

/// The recording of the sum of squares of a vector: a single group reduces it.
pub open spec fn after_rms_norm_sum<B>(
    s: Seq<Command<B>>,
    x: B,
    sum_sq: B,
    dim: u32,
) -> Seq<Command<B>> {
    let s = after_pipeline(s, Pipeline::RmsNormSum);
    let s = after_buffer(s, 0, whole(x));
    let s = after_buffer(s, 1, whole(sum_sq));
    let s = after_u32(s, 2, dim);
    after_dispatch(s, 1, 256)
}

/// Record the sum of squares of a vector.
pub fn encode_rms_norm_sum<B>(enc: &mut Vec<Command<B>>, x: B, sum_sq: B, dim: u32)
    ensures
        final(enc)@ == after_rms_norm_sum(old(enc)@, x, sum_sq, dim),
{
    set_pipeline(enc, Pipeline::RmsNormSum);
    set_buffer(enc, 0, whole(x));
    set_buffer(enc, 1, whole(sum_sq));
    set_u32(enc, 2, dim);
    dispatch(enc, 1, 256);
}

/// The recording of the scaling step of a normalisation; `eps` is a bit pattern.
pub open spec fn after_rms_norm_scale<B>(
    s: Seq<Command<B>>,
    pipeline: Pipeline,
    x: B,
    weight: Binding<B>,
    sum_sq: B,
    out: B,
    dim: u32,
    eps: u32,
) -> Seq<Command<B>> {
    let s = after_pipeline(s, pipeline);
    let s = after_buffer(s, 0, whole(x));
    let s = after_buffer(s, 1, weight);
    let s = after_buffer(s, 2, whole(sum_sq));
    let s = after_buffer(s, 3, whole(out));
    let s = after_u32(s, 4, dim);
    let s = after_f32(s, 5, eps);
    after_dispatch(s, groups_for(dim as int, 256), 256)
}

fn record_rms_norm_scale<B>(
    enc: &mut Vec<Command<B>>,
    pipeline: Pipeline,
    x: B,
    weight: Binding<B>,
    sum_sq: B,
    out: B,
    dim: u32,
    eps: u32,
)
    requires
        dim + 255 <= u32::MAX,
    ensures
        final(enc)@ == after_rms_norm_scale(old(enc)@, pipeline, x, weight, sum_sq, out, dim, eps),
{
    set_pipeline(enc, pipeline);
    set_buffer(enc, 0, whole(x));
    set_buffer(enc, 1, weight);
    set_buffer(enc, 2, whole(sum_sq));
    set_buffer(enc, 3, whole(out));
    set_u32(enc, 4, dim);
    set_f32(enc, 5, eps);
    let num_tgs: u64 = group_count(dim, 256);
    dispatch(enc, num_tgs, 256);
}

/// Record the scaling step of a normalisation with single-precision weights; `eps` is a bit
/// pattern.
pub fn encode_rms_norm_apply<B>(
    enc: &mut Vec<Command<B>>,
    x: B,
    weight: B,
    sum_sq: B,
    out: B,
    dim: u32,
    eps: u32,
)
    requires
        dim + 255 <= u32::MAX,
    ensures
        final(enc)@ == after_rms_norm_scale(
            old(enc)@,
            Pipeline::RmsNormApply,
            x,
            whole(weight),
            sum_sq,
            out,
            dim,
            eps,
        ),
{
    record_rms_norm_scale(enc, Pipeline::RmsNormApply, x, whole(weight), sum_sq, out, dim, eps);
}

/// Record the scaling step of a normalisation with bf16 weights; `eps` is a bit pattern.
pub fn encode_rms_norm_apply_bf16<B>(
    enc: &mut Vec<Command<B>>,
    x: B,
    weight: Binding<B>,
    sum_sq: B,
    out: B,
    dim: u32,
    eps: u32,
)
    requires
        dim + 255 <= u32::MAX,
    ensures
        final(enc)@ == after_rms_norm_scale(
            old(enc)@,
            Pipeline::RmsNormApplyBf16,
            x,
            weight,
            sum_sq,
            out,
            dim,
            eps,
        ),
{
    record_rms_norm_scale(enc, Pipeline::RmsNormApplyBf16, x, weight, sum_sq, out, dim, eps);
}

/// A normalisation as a command list of its own; `sum_sq` is a scratch buffer.
pub fn metal_rms_norm<B: Copy>(x: B, weight: B, sum_sq: B, out: B, dim: u32, eps: u32) -> (r: Vec<
    Command<B>,
>)
    requires
        dim + 255 <= u32::MAX,
    ensures
        r@ == after_finish(
            after_rms_norm_scale(
                after_open(
                    after_close(after_rms_norm_sum(after_open(Seq::empty()), x, sum_sq, dim)),
                ),
                Pipeline::RmsNormApply,
                x,
                whole(weight),
                sum_sq,
                out,
                dim,
                eps,
            ),
        ),
{
    let mut enc: Vec<Command<B>> = Vec::new();
    open_encoder(&mut enc);
    encode_rms_norm_sum(&mut enc, x, sum_sq, dim);
    end_encoding(&mut enc);
    open_encoder(&mut enc);
    encode_rms_norm_apply(&mut enc, x, weight, sum_sq, out, dim, eps);
    finish(&mut enc);
    enc
}

/// The recording of a normalisation with bf16 weights: sum of squares, then scaling.
pub open spec fn after_rms_norm_bf16<B>(
    s: Seq<Command<B>>,
    x: B,
    weight: Binding<B>,
    sum_sq: B,
    out: B,
    dim: u32,
    eps: u32,
) -> Seq<Command<B>> {
    after_rms_norm_scale(
        after_rms_norm_sum(s, x, sum_sq, dim),
        Pipeline::RmsNormApplyBf16,
        x,
        weight,
        sum_sq,
        out,
        dim,
        eps,
    )
}

/// Record a normalisation with bf16 weights.
pub fn encode_rms_norm_bf16<B: Copy>(
    enc: &mut Vec<Command<B>>,
    x: B,
    weight: Binding<B>,
    sum_sq: B,
    out: B,
    dim: u32,
    eps: u32,
)
    requires
        dim + 255 <= u32::MAX,
    ensures
        final(enc)@ == after_rms_norm_bf16(old(enc)@, x, weight, sum_sq, out, dim, eps),
{
    encode_rms_norm_sum(enc, x, sum_sq, dim);
    encode_rms_norm_apply_bf16(enc, x, weight, sum_sq, out, dim, eps);
}

/// The recording of an element-wise sum.
pub open spec fn after_residual_add<B>(
    s: Seq<Command<B>>,
    a: B,
    b: B,
    out: B,
    dim: u32,
) -> Seq<Command<B>> {
    let s = after_pipeline(s, Pipeline::ResidualAdd);
    let s = after_buffer(s, 0, whole(a));
    let s = after_buffer(s, 1, whole(b));
    let s = after_buffer(s, 2, whole(out));
    let s = after_u32(s, 3, dim);
    after_dispatch(s, groups_for(dim as int, 256), 256)
}

/// Record an element-wise sum.
pub fn encode_residual_add<B>(enc: &mut Vec<Command<B>>, a: B, b: B, out: B, dim: u32)
    requires
        dim + 255 <= u32::MAX,
    ensures
        final(enc)@ == after_residual_add(old(enc)@, a, b, out, dim),
{
    set_pipeline(enc, Pipeline::ResidualAdd);
    set_buffer(enc, 0, whole(a));
    set_buffer(enc, 1, whole(b));
    set_buffer(enc, 2, whole(out));
    set_u32(enc, 3, dim);
    let num_tgs: u64 = group_count(dim, 256);
    dispatch(enc, num_tgs, 256);
}

/// The recording of a projection by a tensor of the weight file.
pub open spec fn after_project<B>(
    s: Seq<Command<B>>,
    tensor: crate::command::Tensor,
    x: B,
    out: B,
    out_dim: usize,
    in_dim: usize,
) -> Seq<Command<B>> {
    s.push(Command::Project { tensor, x: whole(x), out: whole(out), out_dim, in_dim })
}

/// Record a projection by a tensor of the weight file.
pub fn encode_project<B>(
    enc: &mut Vec<Command<B>>,
    tensor: crate::command::Tensor,
    x: B,
    out: B,
    out_dim: usize,
    in_dim: usize,
)
    ensures
        final(enc)@ == after_project(old(enc)@, tensor, x, out, out_dim, in_dim),
{
    enc.push(Command::Project { tensor, x: whole(x), out: whole(out), out_dim, in_dim });
}

} // verus!
