//! Expert work that was committed to the device and is collected by a later layer.

use vstd::prelude::*;

verus! {

/// How the work of a layer is split into command buffers.
#[derive(Clone, Copy, Debug, PartialEq, Eq, Structural)]
pub enum PipelineMode {
    /// Everything on the CPU.
    CpuOnly,
    /// One command buffer per operation.
    Gpu,
    /// Attention projections share a command buffer; experts are dispatched one by one.
    FusedExp,
    /// Three command buffers per layer: attention, routing, experts and combine.
    Fused3,
}

/// What decides whether a layer uses the device.
#[derive(Clone, Copy, Debug, PartialEq, Eq, Structural)]
pub struct DeviceUse {
    pub mode: PipelineMode,
    /// A device context and weights on the device.
    pub has_context: bool,
    pub has_weights: bool,
}

impl DeviceUse {
    /// The layer uses the device: context and weights are there, and the mode wants them.
    pub open spec fn gpu(self) -> bool {
        self.mode != PipelineMode::CpuOnly && self.has_context && self.has_weights
    }

    /// Whether the layer uses the device.
    pub fn use_gpu(&self) -> (r: bool)
        ensures
            r == self.gpu(),
    {
        self.mode != PipelineMode::CpuOnly && self.has_context && self.has_weights
    }
}

/// A committed command buffer whose result has not been read yet.
///
/// `C` is a handle of a command buffer, `B` a handle of a device buffer.
pub struct DeferredExperts<C, B> {
    /// The committed command buffer.
    pub cmd_buf: Option<C>,
    /// The buffer that will hold the layer's hidden state.
    pub out_buf: Option<B>,
    /// Buffers that must outlive the command buffer.
    pub keep_alive: Vec<B>,
    /// Whether the next layer's input norm was computed on the device too.
    pub gpu_combined: bool,
}

/// What remains to be done with deferred work: wait for `wait`, and then read `read`.
pub struct Completion<C, B> {
    /// The command buffer to wait for.
    pub wait: Option<C>,
    /// The buffer to read the hidden state from, once the wait is over.
    pub read: Option<B>,
}

impl<C, B> DeferredExperts<C, B> {
    /// Nothing is pending and nothing is kept alive.
    pub open spec fn idle(self) -> bool {
        &&& self.cmd_buf is None
        &&& self.out_buf is None
        &&& self.keep_alive@.len() == 0
    }

    /// Nothing deferred.
    pub fn new() -> (r: Self)
        ensures
            r.idle(),
            !r.gpu_combined,
    {
        DeferredExperts { cmd_buf: None, out_buf: None, keep_alive: Vec::new(), gpu_combined: false }
    }

    /// Work that was just committed.
    pub fn committed(cmd_buf: C, out_buf: B, keep_alive: Vec<B>, gpu_combined: bool) -> (r: Self)
        ensures
            r.cmd_buf == Some(cmd_buf),
            r.out_buf == Some(out_buf),
            r.keep_alive == keep_alive,
            r.gpu_combined == gpu_combined,
    {
        DeferredExperts {
            cmd_buf: Some(cmd_buf),
            out_buf: Some(out_buf),
            keep_alive,
            gpu_combined,
        }
    }

    /// Whether a command buffer is pending.
    pub fn is_active(&self) -> (r: bool)
        ensures
            r == (self.cmd_buf is Some),
    {
        self.cmd_buf.is_some()
    }

    /// Hand out what to wait for and what to read, and forget all handles.
    pub fn complete(&mut self) -> (r: Completion<C, B>)
        ensures
            r.wait == old(self).cmd_buf,
            r.read == old(self).out_buf,
            final(self).idle(),
            final(self).gpu_combined == old(self).gpu_combined,
    {
        let wait = self.cmd_buf.take();
        let read = self.out_buf.take();
        self.keep_alive.clear();
        Completion { wait, read }
    }

    /// As `complete`. A later command buffer of the same queue has already finished; the wait
    /// on this one is still needed before the CPU reads what it wrote.
    pub fn complete_fast(&mut self) -> (r: Completion<C, B>)
        ensures
            r.wait == old(self).cmd_buf,
            r.read == old(self).out_buf,
            final(self).idle(),
            final(self).gpu_combined == old(self).gpu_combined,
    {
        self.complete()
    }

    /// Forget the deferred work without reading its result.
    pub fn discard(&mut self)
        ensures
            final(self).idle(),
            final(self).gpu_combined == old(self).gpu_combined,
    {
        self.cmd_buf = None;
        self.out_buf = None;
        self.keep_alive.clear();
    }
}

/// Replace the first `count` values of `dst` by those of `src`.
pub fn copy_prefix<T: Copy>(dst: &mut [T], src: &[T], count: usize)
    requires
        count <= old(dst)@.len(),
        count <= src@.len(),
    ensures
        final(dst)@ == src@.take(count as int) + old(dst)@.skip(count as int),
{
    for i in 0..count
        invariant
            count <= dst@.len(),
            count <= src@.len(),
            dst@.len() == old(dst)@.len(),
            forall|j: int| 0 <= j < i ==> dst@[j] == src@[j],
            forall|j: int| i <= j < dst@.len() ==> dst@[j] == old(dst)@[j],
    {
        dst[i] = src[i];
    }
    assert(dst@ =~= src@.take(count as int) + old(dst)@.skip(count as int));
}

} // verus!
