//! Reading experts from their file: which bytes go where, and which reads were good.

use vstd::prelude::*;

use crate::expert_cache::{
    inserted, lemma_cache_view_wf, lemma_slot_of, valid_key, ExpertCacheView, ExpertLRUCache,
};
use crate::expert_fetch::{
    after_fetch, after_insert, cells_of, fetch_experts, fetch_ready, fetched_data,
    law_insert_caches, lemma_inserted, lemma_missing, lemma_victim_exists, missing,
};
use crate::io_pool::IOPreadTask;
use crate::lru::{cell_of, LruView};

verus! {

/// Byte offset of an expert in its file.
pub open spec fn expert_offset(expert: int, expert_size: int) -> int {
    expert * expert_size
}

/// Where an expert starts in its file; a read of `expert_size` bytes from there on fills the
/// destination.
pub fn read_expert(expert_idx: i32, expert_size: usize) -> (r: u64)
    requires
        0 <= expert_idx,
        expert_offset(expert_idx as int, expert_size as int) <= u64::MAX,
    ensures
        r == expert_offset(expert_idx as int, expert_size as int),
{
    expert_idx as u64 * expert_size as u64
}

/// Two different experts of a file do not overlap.
pub proof fn law_experts_disjoint(a: int, b: int, expert_size: int)
    requires
        0 <= a < b,
        0 <= expert_size,
    ensures
        expert_offset(a, expert_size) + expert_size <= expert_offset(b, expert_size),
{
    assert((a + 1) * expert_size <= b * expert_size) by (nonlinear_arith)
        requires
            a + 1 <= b,
            0 <= expert_size,
    ;
    assert((a + 1) * expert_size == a * expert_size + expert_size) by (nonlinear_arith);
}

/// A read of a whole expert.
pub open spec fn expert_task<B>(fd: i32, dst: B, expert: int, expert_size: usize) -> IOPreadTask<
    B,
> {
    IOPreadTask {
        fd,
        dst,
        offset: expert_offset(expert, expert_size as int) as u64,
        size: expert_size,
        result: 0,
        lz4_comp_buf: None,
        lz4_comp_size: 0,
    }
}

fn make_task<B: Copy>(fd: i32, dst: B, expert: i32, expert_size: usize) -> (r: IOPreadTask<B>)
    requires
        0 <= expert,
        expert_offset(expert as int, expert_size as int) <= u64::MAX,
    ensures
        r == expert_task(fd, dst, expert as int, expert_size),
{
    IOPreadTask {
        fd,
        dst,
        offset: read_expert(expert, expert_size),
        size: expert_size,
        result: 0,
        lz4_comp_buf: None,
        lz4_comp_size: 0,
    }
}

/// Each expert's place in its file can be computed.
pub open spec fn offsets_fit(experts: Seq<i32>, expert_size: usize) -> bool {
    forall|i: int|
        0 <= i < experts.len() ==> 0 <= #[trigger] experts[i] && expert_offset(
            experts[i] as int,
            expert_size as int,
        ) <= u64::MAX
}

/// Experts of a layer, of which some are still to be read.
pub struct ExpertBatch<B> {
    /// Buffer of each expert; `None` while it is to be read.
    pub bufs: Vec<Option<B>>,
    /// The slots that are to be read.
    pub misses: Vec<usize>,
    /// The reads, one for each of them.
    pub tasks: Vec<IOPreadTask<B>>,
}

impl<B> ExpertBatch<B> {
    /// The batch for experts whose buffers are `data`, of which those in `misses` are to be
    /// read.
    pub open spec fn reads(
        self,
        fd: i32,
        experts: Seq<i32>,
        expert_size: usize,
        data: Seq<B>,
        misses: Seq<usize>,
    ) -> bool {
        &&& self.misses@ == misses
        &&& self.bufs@ == Seq::new(
            experts.len(),
            |i: int|
                if misses.contains(i as usize) {
                    None
                } else {
                    Some(data[i])
                },
        )
        &&& self.tasks@ == Seq::new(
            misses.len(),
            |m: int|
                expert_task(
                    fd,
                    data[misses[m] as int],
                    experts[misses[m] as int] as int,
                    expert_size,
                ),
        )
    }

    /// Every miss is a slot, and has its task.
    pub open spec fn valid(self) -> bool {
        &&& self.tasks@.len() == self.misses@.len()
        &&& forall|m: int|
            0 <= m < self.misses@.len() ==> (#[trigger] self.misses@[m]) < self.bufs@.len()
    }
}

/// The buffers after the reads: a slot that was read well has its buffer.
pub open spec fn settled<B>(
    bufs: Seq<Option<B>>,
    misses: Seq<usize>,
    tasks: Seq<IOPreadTask<B>>,
    good: Seq<bool>,
    n: int,
) -> Seq<Option<B>>
    decreases n,
{
    if n <= 0 {
        bufs
    } else {
        let b = settled(bufs, misses, tasks, good, n - 1);
        if good[n - 1] {
            b.update(misses[n - 1] as int, Some(tasks[n - 1].dst))
        } else {
            b
        }
    }
}

/// Which reads brought a whole expert.
pub open spec fn good_reads(results: Seq<isize>, expert_size: int) -> Seq<bool> {
    Seq::new(results.len(), |i: int| results[i] == expert_size)
}

/// Which reads brought a whole expert: those whose result is the expert's size. Without a
/// pool every read counts as good.
pub fn check_reads(results: &[isize], expert_size: usize, pooled: bool) -> (r: Vec<bool>)
    ensures
        pooled ==> r@ == good_reads(results@, expert_size as int),
        !pooled ==> r@ == Seq::new(results@.len(), |i: int| true),
{
    let mut r: Vec<bool> = Vec::new();
    for i in 0..results.len()
        invariant
            pooled ==> r@ == good_reads(results@.take(i as int), expert_size as int),
            !pooled ==> r@ == Seq::new(i as nat, |i: int| true),
            r@.len() == i,
    {
        let n: isize = results[i];
        let good = !pooled || (n >= 0 && n as usize == expert_size);
        r.push(good);
        proof {
            if pooled {
                assert(r@ =~= good_reads(results@.take(i + 1), expert_size as int));
            } else {
                assert(r@ =~= Seq::new((i + 1) as nat, |i: int| true));
            }
        }
    }
    assert(results@.take(results@.len() as int) =~= results@);
    r
}

impl<B: Copy> ExpertBatch<B> {
    /// Take in which reads were good. Returns the buffer of each expert; `None` where its read
    /// failed.
    pub fn finish(&self, good: &[bool]) -> (r: Vec<Option<B>>)
        requires
            self.valid(),
            good@.len() == self.tasks@.len(),
        ensures
            r@ == settled(
                self.bufs@,
                self.misses@,
                self.tasks@,
                good@,
                self.tasks@.len() as int,
            ),
    {
        let mut bufs: Vec<Option<B>> = Vec::new();
        for i in 0..self.bufs.len()
            invariant
                bufs@ == self.bufs@.take(i as int),
        {
            assert(self.bufs@.take(i + 1) =~= self.bufs@.take(i as int).push(
                self.bufs@[i as int],
            ));
            bufs.push(self.bufs[i]);
        }
        assert(bufs@ =~= self.bufs@);
        for m in 0..self.tasks.len()
            invariant
                self.valid(),
                good@.len() == self.tasks@.len(),
                bufs@.len() == self.bufs@.len(),
                bufs@ == settled(self.bufs@, self.misses@, self.tasks@, good@, m as int),
        {
            assert(self.misses@[m as int] < self.bufs@.len());
            if good[m] {
                bufs.set(self.misses[m], Some(self.tasks[m].dst));
            }
        }
        bufs
    }
}

/// Build the batch for given buffers.
fn make_batch<B: Copy>(
    fd: i32,
    experts: &[i32],
    expert_size: usize,
    data: &Vec<B>,
    misses: Vec<usize>,
) -> (r: ExpertBatch<B>)
    requires
        offsets_fit(experts@, expert_size),
        data@.len() >= experts@.len(),
        forall|m: int|
            0 <= m < misses@.len() ==> (#[trigger] misses@[m]) < experts@.len(),
        forall|a: int, b: int|
            0 <= a < b < misses@.len() ==> #[trigger] misses@[a] < #[trigger] misses@[b],
    ensures
        r.reads(fd, experts@, expert_size, data@, misses@),
        r.valid(),
{
    let mut bufs: Vec<Option<B>> = Vec::new();
    let mut tasks: Vec<IOPreadTask<B>> = Vec::new();
    let mut m: usize = 0;
    for i in 0..experts.len()
        invariant
            offsets_fit(experts@, expert_size),
            data@.len() >= experts@.len(),
            forall|m: int|
                0 <= m < misses@.len() ==> (#[trigger] misses@[m]) < experts@.len(),
            forall|a: int, b: int|
                0 <= a < b < misses@.len() ==> #[trigger] misses@[a] < #[trigger] misses@[b],
            m <= misses@.len(),
            forall|a: int| 0 <= a < m ==> #[trigger] misses@[a] < i,
            forall|a: int| m <= a < misses@.len() ==> #[trigger] misses@[a] >= i,
            bufs@ == Seq::new(
                i as nat,
                |j: int|
                    if misses@.contains(j as usize) {
                        None
                    } else {
                        Some(data@[j])
                    },
            ),
            tasks@ == Seq::new(
                m as nat,
                |a: int|
                    expert_task(
                        fd,
                        data@[misses@[a] as int],
                        experts@[misses@[a] as int] as int,
                        expert_size,
                    ),
            ),
    {
        assert(0 <= experts@[i as int]);
        if m < misses.len() && misses[m] == i {
            proof {
                assert(misses@[m as int] == i);
                assert(misses@.contains(i));
            }
            bufs.push(None);
            tasks.push(make_task(fd, data[i], experts[i], expert_size));
            m = m + 1;
        } else {
            proof {
                assert(!misses@.contains(i)) by {
                    if misses@.contains(i) {
                        let a = choose|a: int| 0 <= a < misses@.len() && misses@[a] == i;
                        if m < a {
                            assert(misses@[m as int] < misses@[a]);
                        }
                    }
                }
            }
            bufs.push(Some(data[i]));
        }
    }
    proof {
        if m < misses@.len() {
            assert(misses@[m as int] < experts@.len());
        }
    }
    ExpertBatch { bufs, misses, tasks }
}

/// Experts as table indices.
pub open spec fn as_indices(experts: Seq<i32>) -> Seq<usize> {
    Seq::new(experts.len(), |i: int| experts[i] as usize)
}

fn to_indices(experts: &[i32]) -> (r: Vec<usize>)
    requires
        forall|i: int| 0 <= i < experts@.len() ==> 0 <= #[trigger] experts@[i],
    ensures
        r@ == as_indices(experts@),
{
    let mut r: Vec<usize> = Vec::new();
    for i in 0..experts.len()
        invariant
            forall|i: int| 0 <= i < experts@.len() ==> 0 <= #[trigger] experts@[i],
            r@ == as_indices(experts@.take(i as int)),
    {
        r.push(experts[i] as usize);
        assert(r@ =~= as_indices(experts@.take(i + 1)));
    }
    assert(experts@.take(experts@.len() as int) =~= experts@);
    r
}

/// Look a layer's experts up in the cache, make room for those that are not cached, and list
/// the reads that bring them.
pub fn batch_expert_read<B: Copy>(
    cache: &mut ExpertLRUCache<B>,
    fd: i32,
    expert_indices: &[i32],
    expert_size: usize,
    layer_idx: i32,
    num_experts: i32,
) -> (r: ExpertBatch<B>)
    requires
        old(cache).wf(num_experts as int),
        offsets_fit(expert_indices@, expert_size),
        fetch_ready(
            old(cache).view_for(num_experts as int),
            layer_idx as int,
            as_indices(expert_indices@),
            num_experts as int,
        ),
    ensures
        final(cache).wf(num_experts as int),
        r.valid(),
        ({
            let v = old(cache).view_for(num_experts as int);
            let cells = cells_of(
                layer_idx as int,
                as_indices(expert_indices@),
                num_experts as int,
            );
            &&& final(cache).view_for(num_experts as int) == after_fetch(v, cells)
            &&& exists|before: Seq<B>, data: Seq<B>|
                #![trigger fetched_data(v, cells, before, data)]
                fetched_data(v, cells, before, data) && r.reads(
                    fd,
                    expert_indices@,
                    expert_size,
                    data,
                    missing(v, cells, cells.len() as int),
                )
        }),
{
    let ghost ne = num_experts as int;
    let ghost v = cache.view_for(ne);
    let ghost cells = cells_of(layer_idx as int, as_indices(expert_indices@), ne);
    proof {
        lemma_cache_view_wf(*cache, ne);
        assert forall|i: int| 0 <= i < expert_indices@.len() implies 0
            <= #[trigger] expert_indices@[i] by {}
    }
    let indices = to_indices(expert_indices);
    let first: B = *cache.buffer(0);
    let mut data: Vec<B> = Vec::new();
    for i in 0..indices.len()
        invariant
            data@.len() == i,
    {
        data.push(first);
    }
    let ghost before = data@;
    let misses = fetch_experts(cache, layer_idx, num_experts, &indices, &mut data);
    proof {
        assert(indices@.len() <= usize::MAX);
        lemma_missing(v, cells, cells.len() as int);
        assert(fetched_data(v, cells, before, data@));
    }
    make_batch(fd, expert_indices, expert_size, &data, misses)
}

/// The cache with an entry pinned.
pub open spec fn with_pinned<B>(v: ExpertCacheView<B>, slot: int) -> ExpertCacheView<B> {
    ExpertCacheView { index: v.index.with_pin(slot, true), ..v }
}

/// The cache after the entries of the cached cells among the first `n` were pinned.
pub open spec fn after_pins<B>(v: ExpertCacheView<B>, cells: Seq<int>, n: int) -> ExpertCacheView<
    B,
>
    decreases n,
{
    if n <= 0 {
        v
    } else {
        let w = after_pins(v, cells, n - 1);
        if v.index.holds(cells[n - 1]) {
            with_pinned(w, v.index.slot_of(cells[n - 1]))
        } else {
            w
        }
    }
}

/// The entries of the cached cells among the first `n`.
pub open spec fn cached_slots<B>(v: ExpertCacheView<B>, cells: Seq<int>, n: int) -> Seq<usize>
    decreases n,
{
    if n <= 0 {
        Seq::empty()
    } else if v.index.holds(cells[n - 1]) {
        cached_slots(v, cells, n - 1).push(v.index.slot_of(cells[n - 1]) as usize)
    } else {
        cached_slots(v, cells, n - 1)
    }
}

/// The cache after the cells of the first `m` missing slots were inserted and pinned.
pub open spec fn after_pinned_inserts<B>(
    v: ExpertCacheView<B>,
    cells: Seq<int>,
    slots: Seq<usize>,
    m: int,
) -> ExpertCacheView<B>
    decreases m,
{
    if m <= 0 {
        v
    } else {
        let cell = cells[slots[m - 1] as int];
        let w = after_insert(after_pinned_inserts(v, cells, slots, m - 1), cell);
        with_pinned(w, w.index.slot_of(cell))
    }
}

/// The entry that the cell of the `m`-th missing slot was given.
pub open spec fn pinned_slot<B>(
    v: ExpertCacheView<B>,
    cells: Seq<int>,
    slots: Seq<usize>,
    m: int,
) -> int {
    after_pinned_inserts(v, cells, slots, m + 1).index.slot_of(cells[slots[m] as int])
}

/// The cache after a pinning fetch.
pub open spec fn after_pinned_fetch<B>(v: ExpertCacheView<B>, cells: Seq<int>) -> ExpertCacheView<
    B,
> {
    let n = cells.len() as int;
    let slots = missing(v, cells, n);
    after_pinned_inserts(after_pins(v, cells, n), cells, slots, slots.len() as int)
}

/// The entries that a pinning fetch pins: those of cached cells, then those of the others.
pub open spec fn pinned_slots<B>(v: ExpertCacheView<B>, cells: Seq<int>) -> Seq<usize> {
    let n = cells.len() as int;
    let slots = missing(v, cells, n);
    let w = after_pins(v, cells, n);
    cached_slots(v, cells, n) + Seq::new(
        slots.len(),
        |m: int| pinned_slot(w, cells, slots, m) as usize,
    )
}

/// The buffers of a pinning fetch.
pub open spec fn pinned_data<B>(v: ExpertCacheView<B>, cells: Seq<int>, data: Seq<B>) -> bool {
    let n = cells.len() as int;
    let slots = missing(v, cells, n);
    let w = after_pins(v, cells, n);
    &&& data.len() == n
    &&& forall|i: int|
        0 <= i < n && v.index.holds(#[trigger] cells[i]) ==> data[i]
            == v.buffers[v.index.slot_of(cells[i])]
    &&& forall|m: int|
        0 <= m < slots.len() ==> data[#[trigger] slots[m] as int] == v.buffers[pinned_slot(
            w,
            cells,
            slots,
            m,
        )]
}

/// Pinning moves no cell.
proof fn lemma_pin<B>(v: ExpertCacheView<B>, slot: int)
    requires
        v.wf(),
    ensures
        with_pinned(v, slot).wf(),
        with_pinned(v, slot).index.capacity() == v.index.capacity(),
        forall|c: int| v.index.holds(c) <==> #[trigger] with_pinned(v, slot).index.holds(c),
        forall|c: int|
            v.index.holds(c) ==> #[trigger] with_pinned(v, slot).index.slot_of(c)
                == v.index.slot_of(c),
{
    let w = with_pinned(v, slot);
    assert forall|c: int| v.index.holds(c) <==> #[trigger] w.index.holds(c) by {
        if v.index.holds(c) {
            assert(w.index.is_slot(v.index.slot_of(c), c));
        }
        if w.index.holds(c) {
            assert(v.index.is_slot(w.index.slot_of(c), c));
        }
    }
    assert forall|c: int| v.index.holds(c) implies #[trigger] w.index.slot_of(c)
        == v.index.slot_of(c) by {
        let s = v.index.slot_of(c);
        assert(v.index.is_slot(s, c));
        assert(w.index.is_slot(s, c));
        lemma_slot_of(w.index, s, c);
    }
}

/// Pinning cached cells moves no cell.
proof fn lemma_pins<B>(v: ExpertCacheView<B>, cells: Seq<int>, n: int)
    requires
        v.wf(),
        0 <= n <= cells.len(),
    ensures
        ({
            let w = after_pins(v, cells, n);
            &&& w.wf()
            &&& w.index.capacity() == v.index.capacity()
            &&& w.index.span == v.index.span
            &&& w.index.clock == v.index.clock
            &&& w.index.used == v.index.used
            &&& w.buffers == v.buffers
            &&& w.index.cells == v.index.cells
            &&& forall|c: int| v.index.holds(c) <==> #[trigger] w.index.holds(c)
            &&& forall|c: int|
                v.index.holds(c) ==> #[trigger] w.index.slot_of(c) == v.index.slot_of(c)
        }),
    decreases n,
{
    if n > 0 {
        lemma_pins(v, cells, n - 1);
        let u = after_pins(v, cells, n - 1);
        lemma_pin(u, v.index.slot_of(cells[n - 1]));
        let w = after_pins(v, cells, n);
        assert forall|c: int| v.index.holds(c) <==> #[trigger] w.index.holds(c) by {
            assert(v.index.holds(c) <==> u.index.holds(c));
        }
        assert forall|c: int| v.index.holds(c) implies #[trigger] w.index.slot_of(c)
            == v.index.slot_of(c) by {
            assert(u.index.holds(c));
            assert(u.index.slot_of(c) == v.index.slot_of(c));
        }
    }
}

/// As `batch_expert_read`, for buffers that are bound without a copy: every entry that is
/// handed out is pinned, and neither the counters nor the clock count the lookups. Also
/// returns the pinned entries.
pub fn batch_expert_read_buffers<B: Copy>(
    cache: &mut ExpertLRUCache<B>,
    fd: i32,
    expert_indices: &[i32],
    expert_size: usize,
    layer_idx: i32,
    num_experts: i32,
) -> (r: (ExpertBatch<B>, Vec<usize>))
    requires
        old(cache).wf(num_experts as int),
        offsets_fit(expert_indices@, expert_size),
        fetch_ready(
            old(cache).view_for(num_experts as int),
            layer_idx as int,
            as_indices(expert_indices@),
            num_experts as int,
        ),
    ensures
        final(cache).wf(num_experts as int),
        r.0.valid(),
        ({
            let v = old(cache).view_for(num_experts as int);
            let cells = cells_of(
                layer_idx as int,
                as_indices(expert_indices@),
                num_experts as int,
            );
            &&& final(cache).view_for(num_experts as int) == after_pinned_fetch(v, cells)
            &&& r.1@ == pinned_slots(v, cells)
            &&& exists|data: Seq<B>|
                #![trigger pinned_data(v, cells, data)]
                pinned_data(v, cells, data) && r.0.reads(
                    fd,
                    expert_indices@,
                    expert_size,
                    data,
                    missing(v, cells, cells.len() as int),
                )
        }),
{
    let ghost ne = num_experts as int;
    let ghost v = cache.view_for(ne);
    let ghost cells = cells_of(layer_idx as int, as_indices(expert_indices@), ne);
    let n: usize = expert_indices.len();
    proof {
        lemma_cache_view_wf(*cache, ne);
    }
    let first: B = *cache.buffer(0);
    let mut data: Vec<B> = Vec::new();
    let mut pinned: Vec<usize> = Vec::new();
    let mut misses: Vec<usize> = Vec::new();
    for ki in 0..n
        invariant
            n == expert_indices@.len(),
            ne == num_experts,
            v.wf(),
            offsets_fit(expert_indices@, expert_size),
            cells == cells_of(layer_idx as int, as_indices(expert_indices@), ne),
            fetch_ready(v, layer_idx as int, as_indices(expert_indices@), ne),
            cache.wf(ne),
            cache.view_for(ne) == after_pins(v, cells, ki as int),
            pinned@ == cached_slots(v, cells, ki as int),
            misses@ == missing(v, cells, ki as int),
            data@.len() == ki,
            forall|i: int|
                0 <= i < ki && v.index.holds(#[trigger] cells[i]) ==> data@[i]
                    == v.buffers[v.index.slot_of(cells[i])],
    {
        let expert_idx: i32 = expert_indices[ki];
        proof {
            lemma_pins(v, cells, ki as int);
            assert(0 <= expert_indices@[ki as int]);
            assert(valid_key(
                v,
                layer_idx as int,
                as_indices(expert_indices@)[ki as int] as int,
                ne,
            ));
            assert(cells[ki as int] == cell_of(layer_idx as int, expert_idx as int, ne));
            lemma_cache_view_wf(*cache, ne);
        }
        let ei: i32 = cache.entry_index(layer_idx, expert_idx, num_experts);
        if ei >= 0 {
            let slot: usize = ei as usize;
            data.push(*cache.buffer(slot));
            cache.pin(slot);
            pinned.push(slot);
        } else {
            misses.push(ki);
            data.push(first);
        }
    }
    proof {
        lemma_pins(v, cells, n as int);
        lemma_missing(v, cells, n as int);
    }
    let ghost w = after_pins(v, cells, n as int);
    let ghost slots = misses@;
    let ghost hits = pinned@;
    let count: usize = misses.len();
    for m in 0..count
        invariant
            n == expert_indices@.len(),
            n == data@.len(),
            ne == num_experts,
            count == misses@.len(),
            count <= n,
            misses@ == slots,
            slots == missing(v, cells, n as int),
            hits == cached_slots(v, cells, n as int),
            v.wf(),
            w.wf(),
            w == after_pins(v, cells, n as int),
            w.buffers == v.buffers,
            w.index.span == v.index.span,
            w.index.clock == v.index.clock,
            w.index.capacity() == v.index.capacity(),
            offsets_fit(expert_indices@, expert_size),
            cells == cells_of(layer_idx as int, as_indices(expert_indices@), ne),
            fetch_ready(v, layer_idx as int, as_indices(expert_indices@), ne),
            forall|a: int|
                0 <= a < slots.len() ==> (#[trigger] slots[a]) < n && !v.index.holds(
                    cells[slots[a] as int],
                ),
            forall|a: int, b: int|
                0 <= a < b < slots.len() ==> #[trigger] slots[a] < #[trigger] slots[b],
            cache.wf(ne),
            cache.view_for(ne) == after_pinned_inserts(w, cells, slots, m as int),
            cache.view_for(ne).buffers == v.buffers,
            cache.view_for(ne).index.span == v.index.span,
            cache.view_for(ne).index.capacity() == v.index.capacity(),
            cache.view_for(ne).index.clock == w.index.clock + m,
            pinned@ == hits + Seq::new(
                m as nat,
                |a: int| pinned_slot(w, cells, slots, a) as usize,
            ),
            forall|i: int|
                0 <= i < n && v.index.holds(#[trigger] cells[i]) ==> data@[i]
                    == v.buffers[v.index.slot_of(cells[i])],
            forall|a: int|
                0 <= a < m ==> data@[#[trigger] slots[a] as int] == v.buffers[pinned_slot(
                    w,
                    cells,
                    slots,
                    a,
                )],
    {
        let ki: usize = misses[m];
        let ghost before = cache.view_for(ne);
        let expert_idx: i32 = expert_indices[ki];
        proof {
            lemma_cache_view_wf(*cache, ne);
            assert(slots[m as int] == ki);
            assert(0 <= expert_indices@[ki as int]);
            assert(valid_key(
                v,
                layer_idx as int,
                as_indices(expert_indices@)[ki as int] as int,
                ne,
            ));
            assert(cells[ki as int] == cell_of(layer_idx as int, expert_idx as int, ne));
            assert(0 <= layer_idx * ne) by (nonlinear_arith)
                requires
                    0 <= layer_idx,
                    0 <= ne,
            ;
        }
        let slot_buf: B = *cache.insert(layer_idx, expert_idx, num_experts);
        let ghost after = cache.view_for(ne);
        proof {
            lemma_inserted(before, after, cells[ki as int]);
            law_insert_caches(before, after, cells[ki as int]);
            assert(after.index.is_slot(
                after.index.slot_of(cells[ki as int]),
                cells[ki as int],
            ));
            lemma_cache_view_wf(*cache, ne);
        }
        let ei: i32 = cache.entry_index(layer_idx, expert_idx, num_experts);
        let slot: usize = ei as usize;
        cache.pin(slot);
        proof {
            lemma_pin(after, slot as int);
            assert(cache.view_for(ne) == with_pinned(after, slot as int));
            assert(pinned_slot(w, cells, slots, m as int) == slot);
        }
        pinned.push(slot);
        assert(pinned@ =~= hits + Seq::new(
            (m + 1) as nat,
            |a: int| pinned_slot(w, cells, slots, a) as usize,
        ));
        data.set(ki, slot_buf);
    }
    assert(pinned@ =~= pinned_slots(v, cells));
    assert(pinned_data(v, cells, data@));
    (make_batch(fd, expert_indices, expert_size, &data, misses), pinned)
}

/// Reads of experts straight into given buffers, past the cache.
pub fn direct_expert_read<B: Copy>(
    fd: i32,
    expert_indices: &[i32],
    k: usize,
    expert_size: usize,
    dst_bufs: &[B],
) -> (r: Vec<IOPreadTask<B>>)
    requires
        k <= expert_indices@.len(),
        k <= dst_bufs@.len(),
        offsets_fit(expert_indices@.take(k as int), expert_size),
    ensures
        r@ == Seq::new(
            k as nat,
            |i: int| expert_task(fd, dst_bufs@[i], expert_indices@[i] as int, expert_size),
        ),
{
    let mut tasks: Vec<IOPreadTask<B>> = Vec::new();
    for i in 0..k
        invariant
            k <= expert_indices@.len(),
            k <= dst_bufs@.len(),
            offsets_fit(expert_indices@.take(k as int), expert_size),
            tasks@ == Seq::new(
                i as nat,
                |i: int| expert_task(fd, dst_bufs@[i], expert_indices@[i] as int, expert_size),
            ),
    {
        assert(0 <= expert_indices@.take(k as int)[i as int]);
        tasks.push(make_task(fd, dst_bufs[i], expert_indices[i], expert_size));
    }
    tasks
}

/// The pinned entries.
spec fn pins(v: LruView) -> Set<int> {
    Set::new(|i: int| 0 <= i < v.capacity() && v.pinned[i])
}

/// Number of pinned entries.
pub closed spec fn pin_count(v: LruView) -> nat {
    pins(v).len()
}

/// An entry holds a cell and is pinned.
spec fn held_pinned(v: LruView, slot: int, cell: int) -> bool {
    v.is_slot(slot, cell) && v.pinned[slot]
}

proof fn lemma_pins_finite(v: LruView)
    ensures
        pins(v).finite(),
        pin_count(v) <= v.capacity(),
        pin_count(v) < v.capacity() ==> !v.all_pinned(),
{
    let all = vstd::set_lib::set_int_range(0, v.capacity());
    vstd::set_lib::lemma_int_range(0, v.capacity());
    assert(pins(v).subset_of(all));
    vstd::set_lib::lemma_len_subset(pins(v), all);
    if v.all_pinned() {
        assert(pins(v) =~= all);
    }
}

proof fn lemma_pin_count<B>(v: ExpertCacheView<B>, slot: int)
    requires
        v.wf(),
    ensures
        pin_count(with_pinned(v, slot).index) <= pin_count(v.index) + 1,
{
    let w = with_pinned(v, slot);
    lemma_pins_finite(v.index);
    lemma_pins_finite(w.index);
    assert(pins(w.index).subset_of(pins(v.index).insert(slot)));
    vstd::set_lib::lemma_len_subset(pins(w.index), pins(v.index).insert(slot));
}

/// Inserting and pinning a cell keeps the cells of pinned entries while some entry is free.
proof fn lemma_pinned_insert_keeps<B>(u: ExpertCacheView<B>, cell: int)
    requires
        u.wf(),
        0 < u.index.capacity(),
        0 <= cell < u.index.span,
        pin_count(u.index) < u.index.capacity(),
    ensures
        ({
            let a = after_insert(u, cell);
            let w = with_pinned(a, a.index.slot_of(cell));
            &&& w.wf()
            &&& w.index.capacity() == u.index.capacity()
            &&& w.index.span == u.index.span
            &&& w.buffers == u.buffers
            &&& pin_count(w.index) <= pin_count(u.index) + 1
            &&& held_pinned(w.index, w.index.slot_of(cell), cell)
            &&& forall|s: int, c: int|
                held_pinned(u.index, s, c) ==> #[trigger] held_pinned(w.index, s, c)
        }),
{
    lemma_victim_exists(u.index);
    let a = after_insert(u, cell);
    assert(inserted(u, a, cell));
    law_insert_caches(u, a, cell);
    let s = a.index.slot_of(cell);
    assert(a.index.is_slot(s, cell));
    let w = with_pinned(a, s);
    lemma_pin(a, s);
    lemma_pin_count(a, s);
    assert(pins(a.index) =~= pins(u.index));
    lemma_pins_finite(u.index);
    assert(w.index.slot_of(cell) == s);
    assert forall|t: int, c: int| held_pinned(u.index, t, c) implies #[trigger] held_pinned(
        w.index,
        t,
        c,
    ) by {
        if !u.index.holds(cell) {
            let x = choose|x: int| u.index.is_victim(x);
            assert(x != t);
        }
    }
}

proof fn lemma_pins_keep<B>(v: ExpertCacheView<B>, cells: Seq<int>, n: int)
    requires
        v.wf(),
        0 <= n <= cells.len(),
    ensures
        ({
            let w = after_pins(v, cells, n);
            &&& pin_count(w.index) + missing(v, cells, n).len() <= pin_count(v.index) + n
            &&& forall|i: int|
                0 <= i < n && v.index.holds(#[trigger] cells[i]) ==> held_pinned(
                    w.index,
                    v.index.slot_of(cells[i]),
                    cells[i],
                )
        }),
    decreases n,
{
    if n > 0 {
        lemma_pins_keep(v, cells, n - 1);
        lemma_pins(v, cells, n - 1);
        let u = after_pins(v, cells, n - 1);
        let w = after_pins(v, cells, n);
        let s = v.index.slot_of(cells[n - 1]);
        lemma_pin_count(u, s);
        if v.index.holds(cells[n - 1]) {
            assert(v.index.is_slot(s, cells[n - 1]));
        }
        assert forall|i: int| 0 <= i < n && v.index.holds(#[trigger] cells[i]) implies held_pinned(
            w.index,
            v.index.slot_of(cells[i]),
            cells[i],
        ) by {
            if i < n - 1 {
                assert(held_pinned(u.index, v.index.slot_of(cells[i]), cells[i]));
            }
        }
    }
}

proof fn lemma_pinned_inserts_keep<B>(v: ExpertCacheView<B>, cells: Seq<int>, m: int)
    requires
        v.wf(),
        0 < v.index.capacity(),
        pin_count(v.index) + cells.len() <= v.index.capacity(),
        cells.len() <= usize::MAX,
        forall|i: int| 0 <= i < cells.len() ==> 0 <= #[trigger] cells[i] < v.index.span,
        0 <= m <= missing(v, cells, cells.len() as int).len(),
    ensures
        ({
            let n = cells.len() as int;
            let slots = missing(v, cells, n);
            let start = after_pins(v, cells, n);
            let w = after_pinned_inserts(start, cells, slots, m);
            &&& w.wf()
            &&& w.buffers == v.buffers
            &&& w.index.capacity() == v.index.capacity()
            &&& w.index.span == v.index.span
            &&& pin_count(w.index) + slots.len() <= pin_count(v.index) + n + m
            &&& forall|i: int|
                0 <= i < n && v.index.holds(#[trigger] cells[i]) ==> held_pinned(
                    w.index,
                    v.index.slot_of(cells[i]),
                    cells[i],
                )
            &&& forall|a: int|
                0 <= a < m ==> held_pinned(
                    w.index,
                    pinned_slot(start, cells, slots, a),
                    cells[#[trigger] slots[a] as int],
                )
        }),
    decreases m,
{
    let n = cells.len() as int;
    let slots = missing(v, cells, n);
    let start = after_pins(v, cells, n);
    lemma_pins(v, cells, n);
    lemma_missing(v, cells, n);
    if m <= 0 {
        lemma_pins_keep(v, cells, n);
    } else {
        lemma_pinned_inserts_keep(v, cells, m - 1);
        let u = after_pinned_inserts(start, cells, slots, m - 1);
        let w = after_pinned_inserts(start, cells, slots, m);
        let cell = cells[slots[m - 1] as int];
        lemma_pinned_insert_keeps(u, cell);
        assert forall|i: int| 0 <= i < n && v.index.holds(#[trigger] cells[i]) implies held_pinned(
            w.index,
            v.index.slot_of(cells[i]),
            cells[i],
        ) by {
            assert(held_pinned(u.index, v.index.slot_of(cells[i]), cells[i]));
        }
        assert forall|a: int| 0 <= a < m implies held_pinned(
            w.index,
            pinned_slot(start, cells, slots, a),
            cells[#[trigger] slots[a] as int],
        ) by {
            if a < m - 1 {
                assert(held_pinned(
                    u.index,
                    pinned_slot(start, cells, slots, a),
                    cells[slots[a] as int],
                ));
            }
        }
    }
}

/// While the entries that were pinned before and those of the fetched experts together are no
/// more than there are, a pinning fetch evicts none of the experts that it fetches: each is
/// cached afterwards in the buffer that was handed out, and its entry is pinned.
pub proof fn law_pinned_fetch_keeps_all<B>(v: ExpertCacheView<B>, cells: Seq<int>, data: Seq<B>)
    requires
        v.wf(),
        pin_count(v.index) + cells.len() <= v.index.capacity(),
        cells.len() <= usize::MAX,
        forall|i: int| 0 <= i < cells.len() ==> 0 <= #[trigger] cells[i] < v.index.span,
        pinned_data(v, cells, data),
    ensures
        ({
            let w = after_pinned_fetch(v, cells);
            forall|i: int|
                0 <= i < cells.len() ==> w.index.holds(#[trigger] cells[i]) && data[i]
                    == w.buffers[w.index.slot_of(cells[i])]
                    && w.index.pinned[w.index.slot_of(cells[i])]
        }),
{
    let n = cells.len() as int;
    let slots = missing(v, cells, n);
    let start = after_pins(v, cells, n);
    let w = after_pinned_fetch(v, cells);
    if n > 0 {
        lemma_missing(v, cells, n);
        lemma_pinned_inserts_keep(v, cells, slots.len() as int);
        assert forall|i: int| 0 <= i < n implies w.index.holds(#[trigger] cells[i]) && data[i]
            == w.buffers[w.index.slot_of(cells[i])] && w.index.pinned[w.index.slot_of(cells[i])] by {
            if v.index.holds(cells[i]) {
                let s = v.index.slot_of(cells[i]);
                assert(held_pinned(w.index, s, cells[i]));
                lemma_slot_of(w.index, s, cells[i]);
            } else {
                assert(slots.contains(i as usize));
                let a = choose|a: int| 0 <= a < slots.len() && slots[a] == i as usize;
                let s = pinned_slot(start, cells, slots, a);
                assert(held_pinned(w.index, s, cells[i]));
                lemma_slot_of(w.index, s, cells[i]);
            }
        }
    }
}

/// What a batch reads: each missing expert from its own bytes of the file, all of them, into the
/// buffer of its place. The places that are not missing have their buffers already.
pub proof fn law_batch_reads<B>(
    b: ExpertBatch<B>,
    fd: i32,
    experts: Seq<i32>,
    expert_size: usize,
    data: Seq<B>,
    misses: Seq<usize>,
    m: int,
    i: int,
)
    requires
        b.reads(fd, experts, expert_size, data, misses),
        offsets_fit(experts, expert_size),
        0 <= m < misses.len(),
        misses[m] < experts.len(),
        0 <= i < experts.len() <= usize::MAX,
    ensures
        ({
            let place = misses[m] as int;
            let task = b.tasks@[m];
            &&& b.tasks@.len() == misses.len()
            &&& task.fd == fd
            &&& task.dst == data[place]
            &&& task.offset == experts[place] * expert_size
            &&& task.size == expert_size
            &&& b.bufs@.len() == experts.len()
            &&& b.bufs@[place] is None
            &&& !misses.contains(i as usize) ==> b.bufs@[i] == Some(data[i])
        }),
{
    let place = misses[m] as int;
    assert(misses.contains(place as usize));
    assert(0 <= experts[place] * expert_size) by (nonlinear_arith)
        requires
            0 <= experts[place],
            0 <= expert_size,
    ;
}

/// What becomes of the places that were read: one whose read was good has the buffer that it was
/// read into; one whose read was not stays without; all others stay as they were.
pub proof fn law_settled<B>(
    bufs: Seq<Option<B>>,
    misses: Seq<usize>,
    tasks: Seq<IOPreadTask<B>>,
    good: Seq<bool>,
    n: int,
    i: int,
)
    requires
        0 <= n <= misses.len(),
        0 <= i < bufs.len(),
        forall|a: int, b: int|
            0 <= a < b < misses.len() ==> #[trigger] misses[a] != #[trigger] misses[b],
        forall|m: int| 0 <= m < misses.len() ==> (#[trigger] misses[m]) < bufs.len(),
    ensures
        ({
            let r = settled(bufs, misses, tasks, good, n);
            &&& r.len() == bufs.len()
            &&& forall|m: int|
                0 <= m < n ==> r[(#[trigger] misses[m]) as int] == (if good[m] {
                    Some(tasks[m].dst)
                } else {
                    bufs[misses[m] as int]
                })
            &&& (forall|m: int| 0 <= m < n ==> #[trigger] misses[m] != i) ==> r[i] == bufs[i]
        }),
    decreases n,
{
    if n > 0 {
        let last = misses[n - 1] as int;
        law_settled(bufs, misses, tasks, good, n - 1, i);
        law_settled(bufs, misses, tasks, good, n - 1, last);
        let before = settled(bufs, misses, tasks, good, n - 1);
        let r = settled(bufs, misses, tasks, good, n);
        assert(before[last] == bufs[last]);
        assert forall|m: int| 0 <= m < n implies r[(#[trigger] misses[m]) as int] == (if good[m] {
            Some(tasks[m].dst)
        } else {
            bufs[misses[m] as int]
        }) by {
            if m < n - 1 {
                assert(misses[m] != misses[n - 1]);
            }
        }
    }
}

/// A read is good where it brought as many bytes as an expert has.
pub proof fn law_good_reads(results: Seq<isize>, expert_size: int, i: int)
    requires
        0 <= i < results.len(),
    ensures
        good_reads(results, expert_size).len() == results.len(),
        good_reads(results, expert_size)[i] <==> results[i] == expert_size,
{
}

/// What a fetch pins before it reads: the slots of the experts that the cache holds, and no
/// others; their slots are listed, one for each of them, in the order of the experts.
pub proof fn law_cached_slots<B>(v: ExpertCacheView<B>, cells: Seq<int>, n: int, s: int)
    requires
        v.wf(),
        0 <= n <= cells.len(),
        n <= usize::MAX,
        v.index.capacity() <= usize::MAX,
        0 <= s < v.index.capacity(),
    ensures
        ({
            let w = after_pins(v, cells, n);
            let c = cached_slots(v, cells, n);
            &&& c.len() + missing(v, cells, n).len() == n
            &&& forall|i: int|
                0 <= i < n && v.index.holds(#[trigger] cells[i]) ==> c.contains(
                    v.index.slot_of(cells[i]) as usize,
                )
            &&& w.index.pinned.len() == v.index.pinned.len()
            &&& w.index.pinned[s] == (v.index.pinned[s] || exists|i: int|
                0 <= i < n && v.index.holds(#[trigger] cells[i]) && v.index.slot_of(cells[i]) == s)
            &&& w.index.cells == v.index.cells
            &&& w.index.last_used == v.index.last_used
            &&& w.hits == v.hits
            &&& w.misses == v.misses
        }),
    decreases n,
{
    if n > 0 {
        law_cached_slots(v, cells, n - 1, s);
        let before = cached_slots(v, cells, n - 1);
        let c = cached_slots(v, cells, n);
        let last = cells[n - 1];
        if v.index.holds(last) {
            let t = v.index.slot_of(last);
            assert(v.index.is_slot(t, last));
            assert(c == before.push(t as usize));
            assert forall|i: int| 0 <= i < n && v.index.holds(
                #[trigger] cells[i],
            ) implies c.contains(v.index.slot_of(cells[i]) as usize) by {
                let x = v.index.slot_of(cells[i]) as usize;
                if i < n - 1 {
                    assert(before.contains(x));
                    let a = choose|a: int| 0 <= a < before.len() && before[a] == x;
                    assert(c[a] == x);
                } else {
                    assert(c[c.len() - 1] == x);
                }
            }
            if s == t {
                assert(v.index.holds(cells[n - 1]) && v.index.slot_of(cells[n - 1]) == s);
            }
        }
    }
}

} // verus!
