//! A single expert on the device: what is read, and what is run.

use vstd::prelude::*;

use crate::command::{at, whole, Binding, Command};
use crate::constants::ExpertLayout;
use crate::error::{IoError, IoErrorKind, MoEError};
use crate::kernels::{
    after_close, after_matvec, after_open, after_submit, after_swiglu, encode_matvec_offset,
    encode_swiglu, end_encoding, open_encoder, submit,
};
use crate::text::{append_i64, append_usize, decimal, signed_decimal};
use crate::weights::LayerDims;

verus! {

/// A piece of the expert file.
#[derive(Clone, Copy, Debug, PartialEq, Eq, Structural)]
pub struct FileRange {
    pub offset: i64,
    pub size: usize,
}

/// Byte offset of an expert in its file.
pub open spec fn file_offset(expert: int, l: ExpertLayout) -> int {
    expert * l.expert_size_4bit
}

/// All parts of an expert lie within reach of a file offset.
pub open spec fn reachable(expert: int, l: ExpertLayout) -> bool {
    &&& file_offset(expert, l) + l.gate_w_off <= i64::MAX
    &&& file_offset(expert, l) + l.gate_s_off <= i64::MAX
    &&& file_offset(expert, l) + l.gate_b_off <= i64::MAX
    &&& file_offset(expert, l) + l.up_w_off <= i64::MAX
    &&& file_offset(expert, l) + l.up_s_off <= i64::MAX
    &&& file_offset(expert, l) + l.up_b_off <= i64::MAX
    &&& file_offset(expert, l) + l.down_w_off <= i64::MAX
    &&& file_offset(expert, l) + l.down_s_off <= i64::MAX
    &&& file_offset(expert, l) + l.down_b_off <= i64::MAX
}

/// A part of an expert in the file.
pub open spec fn part_range(expert: int, l: ExpertLayout, off: usize, size: usize) -> FileRange {
    FileRange { offset: (file_offset(expert, l) + off) as i64, size }
}

/// The nine parts of an expert in the file: weights, scales and biases of gate, up and down.
pub open spec fn part_ranges(expert: int, l: ExpertLayout) -> Seq<FileRange> {
    seq![
        part_range(expert, l, l.gate_w_off, l.gate_w_size),
        part_range(expert, l, l.gate_s_off, l.gate_s_size),
        part_range(expert, l, l.gate_b_off, l.gate_b_size),
        part_range(expert, l, l.up_w_off, l.up_w_size),
        part_range(expert, l, l.up_s_off, l.up_s_size),
        part_range(expert, l, l.up_b_off, l.up_b_size),
        part_range(expert, l, l.down_w_off, l.down_w_size),
        part_range(expert, l, l.down_s_off, l.down_s_size),
        part_range(expert, l, l.down_b_off, l.down_b_size),
    ]
}

/// The nine reads of an expert, one per part.
pub fn expert_part_reads(expert_idx: usize, l: &ExpertLayout) -> (r: Vec<FileRange>)
    requires
        reachable(expert_idx as int, *l),
    ensures
        r@ == part_ranges(expert_idx as int, *l),
{
    proof {
        assert(0 <= expert_idx * l.expert_size_4bit) by (nonlinear_arith)
            requires
                0 <= expert_idx,
                0 <= l.expert_size_4bit,
        ;
    }
    let base: i64 = (expert_idx as u64 * l.expert_size_4bit as u64) as i64;
    let mut r: Vec<FileRange> = Vec::new();
    r.push(FileRange { offset: base + l.gate_w_off as i64, size: l.gate_w_size });
    r.push(FileRange { offset: base + l.gate_s_off as i64, size: l.gate_s_size });
    r.push(FileRange { offset: base + l.gate_b_off as i64, size: l.gate_b_size });
    r.push(FileRange { offset: base + l.up_w_off as i64, size: l.up_w_size });
    r.push(FileRange { offset: base + l.up_s_off as i64, size: l.up_s_size });
    r.push(FileRange { offset: base + l.up_b_off as i64, size: l.up_b_size });
    r.push(FileRange { offset: base + l.down_w_off as i64, size: l.down_w_size });
    r.push(FileRange { offset: base + l.down_s_off as i64, size: l.down_s_size });
    r.push(FileRange { offset: base + l.down_b_off as i64, size: l.down_b_size });
    assert(r@ =~= part_ranges(expert_idx as int, *l));
    r
}

/// The one read of a whole expert.
pub fn expert_read(expert_idx: usize, l: &ExpertLayout) -> (r: FileRange)
    requires
        file_offset(expert_idx as int, *l) <= i64::MAX,
    ensures
        r == part_range(expert_idx as int, *l, 0, l.expert_size_4bit),
{
    proof {
        assert(0 <= expert_idx * l.expert_size_4bit) by (nonlinear_arith)
            requires
                0 <= expert_idx,
                0 <= l.expert_size_4bit,
        ;
    }
    FileRange {
        offset: (expert_idx as u64 * l.expert_size_4bit as u64) as i64,
        size: l.expert_size_4bit,
    }
}

/// The nine parts of an expert as bindings.
#[derive(Clone, Copy, Debug)]
pub struct ExpertBindings<B> {
    pub gate_w: Binding<B>,
    pub gate_s: Binding<B>,
    pub gate_b: Binding<B>,
    pub up_w: Binding<B>,
    pub up_s: Binding<B>,
    pub up_b: Binding<B>,
    pub down_w: Binding<B>,
    pub down_s: Binding<B>,
    pub down_b: Binding<B>,
}

/// The parts of an expert that lies in one buffer.
pub open spec fn parts_in<B>(buf: B, l: ExpertLayout) -> ExpertBindings<B> {
    ExpertBindings {
        gate_w: at(buf, l.gate_w_off as u64),
        gate_s: at(buf, l.gate_s_off as u64),
        gate_b: at(buf, l.gate_b_off as u64),
        up_w: at(buf, l.up_w_off as u64),
        up_s: at(buf, l.up_s_off as u64),
        up_b: at(buf, l.up_b_off as u64),
        down_w: at(buf, l.down_w_off as u64),
        down_s: at(buf, l.down_s_off as u64),
        down_b: at(buf, l.down_b_off as u64),
    }
}

/// Bind the parts of an expert that lies in one buffer.
pub fn bind_parts<B: Copy>(buf: B, l: &ExpertLayout) -> (r: ExpertBindings<B>)
    ensures
        r == parts_in(buf, *l),
{
    ExpertBindings {
        gate_w: at(buf, l.gate_w_off as u64),
        gate_s: at(buf, l.gate_s_off as u64),
        gate_b: at(buf, l.gate_b_off as u64),
        up_w: at(buf, l.up_w_off as u64),
        up_s: at(buf, l.up_s_off as u64),
        up_b: at(buf, l.up_b_off as u64),
        down_w: at(buf, l.down_w_off as u64),
        down_s: at(buf, l.down_s_off as u64),
        down_b: at(buf, l.down_b_off as u64),
    }
}

/// Input, intermediate vectors and output of an expert.
#[derive(Clone, Copy, Debug)]
pub struct ExpertVectors<B> {
    pub x: B,
    pub gate: B,
    pub up: B,
    pub act: B,
    pub out: B,
}

/// The dimensions fit into the kernels' arguments.
pub open spec fn expert_args_fit(d: LayerDims) -> bool {
    &&& d.hidden_dim + 255 <= u32::MAX
    &&& d.moe_inter + 255 <= u32::MAX
    &&& d.group_size <= u32::MAX
}

/// An expert as a command list: gate, up, activation and down projection, each in an encoder
/// of its own.
pub open spec fn expert_commands<B>(
    d: LayerDims,
    has_vec4: bool,
    p: ExpertBindings<B>,
    v: ExpertVectors<B>,
    use_fast: i32,
) -> Seq<Command<B>> {
    let hidden = d.hidden_dim as u32;
    let inter = d.moe_inter as u32;
    let gs = d.group_size as u32;
    let s = after_close(
        after_matvec(
            after_open(Seq::empty()),
            p.gate_w,
            p.gate_s,
            p.gate_b,
            whole(v.x),
            whole(v.gate),
            inter,
            hidden,
            gs,
            use_fast,
        ),
    );
    let s = after_close(
        after_matvec(
            after_open(s),
            p.up_w,
            p.up_s,
            p.up_b,
            whole(v.x),
            whole(v.up),
            inter,
            hidden,
            gs,
            use_fast,
        ),
    );
    let s = after_close(
        after_swiglu(after_open(s), has_vec4, whole(v.gate), whole(v.up), whole(v.act), inter),
    );
    after_submit(
        after_close(
            after_matvec(
                after_open(s),
                p.down_w,
                p.down_s,
                p.down_b,
                whole(v.act),
                whole(v.out),
                hidden,
                inter,
                gs,
                use_fast,
            ),
        ),
    )
}

/// An expert whose nine parts were read into buffers of their own, as a command list.
pub fn run_expert_forward<B: Copy>(
    d: &LayerDims,
    has_vec4: bool,
    p: &ExpertBindings<B>,
    v: &ExpertVectors<B>,
    use_fast: i32,
) -> (r: Vec<Command<B>>)
    requires
        expert_args_fit(*d),
    ensures
        r@ == expert_commands(*d, has_vec4, *p, *v, use_fast),
{
    let hidden: u32 = d.hidden_dim as u32;
    let inter: u32 = d.moe_inter as u32;
    let gs: u32 = d.group_size as u32;
    let mut enc: Vec<Command<B>> = Vec::new();
    open_encoder(&mut enc);
    encode_matvec_offset(
        &mut enc,
        p.gate_w,
        p.gate_s,
        p.gate_b,
        whole(v.x),
        whole(v.gate),
        inter,
        hidden,
        gs,
        use_fast,
    );
    end_encoding(&mut enc);
    open_encoder(&mut enc);
    encode_matvec_offset(
        &mut enc,
        p.up_w,
        p.up_s,
        p.up_b,
        whole(v.x),
        whole(v.up),
        inter,
        hidden,
        gs,
        use_fast,
    );
    end_encoding(&mut enc);
    open_encoder(&mut enc);
    encode_swiglu(&mut enc, has_vec4, whole(v.gate), whole(v.up), whole(v.act), inter);
    end_encoding(&mut enc);
    open_encoder(&mut enc);
    encode_matvec_offset(
        &mut enc,
        p.down_w,
        p.down_s,
        p.down_b,
        whole(v.act),
        whole(v.out),
        hidden,
        inter,
        gs,
        use_fast,
    );
    end_encoding(&mut enc);
    submit(&mut enc);
    enc
}

/// The message for an expert that was not read whole.
pub open spec fn short_read_message(expert: int, nread: int, size: int) -> Seq<char> {
    "pread expert "@ + decimal(expert) + ": got "@ + signed_decimal(nread) + ", expected "@
        + decimal(size)
}

/// An expert that was read into one buffer with one read, as a command list; an error if the
/// read brought less than the whole expert.
pub fn run_expert_forward_fast<B: Copy>(
    d: &LayerDims,
    l: &ExpertLayout,
    has_vec4: bool,
    expert_idx: usize,
    nread: i64,
    expert_buf: B,
    v: &ExpertVectors<B>,
    use_fast: i32,
) -> (r: Result<Vec<Command<B>>, MoEError>)
    requires
        expert_args_fit(*d),
    ensures
        match r {
            Ok(p) => nread == l.expert_size_4bit && p@ == expert_commands(
                *d,
                has_vec4,
                parts_in(expert_buf, *l),
                *v,
                use_fast,
            ),
            Err(MoEError::Io(e)) => {
                &&& nread != l.expert_size_4bit
                &&& e.kind == IoErrorKind::UnexpectedEof
                &&& e.text@ == short_read_message(
                    expert_idx as int,
                    nread as int,
                    l.expert_size_4bit as int,
                )
            },
            Err(_) => false,
        },
{
    if nread < 0 || nread as u64 != l.expert_size_4bit as u64 {
        let mut m = String::from_str("pread expert ");
        append_usize(&mut m, expert_idx);
        m.append(": got ");
        append_i64(&mut m, nread);
        m.append(", expected ");
        append_usize(&mut m, l.expert_size_4bit);
        return Err(MoEError::Io(IoError { kind: IoErrorKind::UnexpectedEof, text: m }));
    }
    let p = bind_parts(expert_buf, l);
    Ok(run_expert_forward(d, has_vec4, &p, v, use_fast))
}

/// Where the parts of an expert are read: experts follow each other in the file, each of them
/// `expert_size_4bit` bytes. The nine parts are weights, scales and biases of gate, up and
/// down projections, each at its offset in the expert and of its size.
pub proof fn law_part_reads(expert: int, l: ExpertLayout)
    requires
        0 <= expert,
        reachable(expert, l),
    ensures
        ({
            let r = part_ranges(expert, l);
            let first = expert * l.expert_size_4bit;
            &&& file_offset(0, l) == 0
            &&& file_offset(expert + 1, l) == file_offset(expert, l) + l.expert_size_4bit
            &&& r.len() == 9
            &&& r[0].offset == first + l.gate_w_off && r[0].size == l.gate_w_size
            &&& r[1].offset == first + l.gate_s_off && r[1].size == l.gate_s_size
            &&& r[2].offset == first + l.gate_b_off && r[2].size == l.gate_b_size
            &&& r[3].offset == first + l.up_w_off && r[3].size == l.up_w_size
            &&& r[4].offset == first + l.up_s_off && r[4].size == l.up_s_size
            &&& r[5].offset == first + l.up_b_off && r[5].size == l.up_b_size
            &&& r[6].offset == first + l.down_w_off && r[6].size == l.down_w_size
            &&& r[7].offset == first + l.down_s_off && r[7].size == l.down_s_size
            &&& r[8].offset == first + l.down_b_off && r[8].size == l.down_b_size
        }),
{
    assert(0 <= expert * l.expert_size_4bit) by (nonlinear_arith)
        requires
            0 <= expert,
            0 <= l.expert_size_4bit,
    ;
    assert((expert + 1) * l.expert_size_4bit == expert * l.expert_size_4bit + l.expert_size_4bit)
        by (nonlinear_arith);
    assert(0 * l.expert_size_4bit == 0);
}

} // verus!
