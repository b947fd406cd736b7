//! Caches of expert weights, keyed by layer and expert.

use vstd::prelude::*;

use crate::lru::{
    cached_cells, cell_of, law_capacity_bound, law_pinned_slot_kept, law_place_keeps_others,
    law_victim_unique, LruIndex, LruView,
};

verus! {

/// Mathematical model of an expert cache: the slot index, the buffer of each slot and the
/// lookup counters.
pub struct ExpertCacheView<B> {
    pub index: LruView,
    pub buffers: Seq<B>,
    pub hits: int,
    pub misses: int,
}

impl<B> ExpertCacheView<B> {
    pub open spec fn wf(self) -> bool {
        self.index.wf() && self.buffers.len() == self.index.capacity()
    }

    /// The cache after a lookup that found the cell in slot `i`.
    pub open spec fn hit(self, i: int) -> Self {
        ExpertCacheView { index: self.index.touch(i), hits: self.hits + 1, ..self }
    }

    /// The cache after a lookup that found nothing.
    pub open spec fn miss(self) -> Self {
        ExpertCacheView { misses: self.misses + 1, ..self }
    }

    /// The cache after a lookup.
    pub open spec fn after_lookup(self, cell: int) -> Self {
        if self.index.holds(cell) {
            self.hit(self.index.slot_of(cell))
        } else {
            self.miss()
        }
    }
}

/// A key that the table of the cache can hold.
pub open spec fn valid_key<B>(
    v: ExpertCacheView<B>,
    layer: int,
    expert: int,
    num_experts: int,
) -> bool {
    &&& 0 <= layer
    &&& 0 <= expert
    &&& 0 <= num_experts
    &&& cell_of(layer, expert, num_experts) < v.index.span
}

/// Cache of expert buffers shared by all layers, with least-recently-used replacement.
/// A pinned entry is in use by work in flight and is not evicted.
pub struct ExpertLRUCache<B> {
    buffers: Vec<B>,
    index: LruIndex,
    pub hits: u64,
    pub misses: u64,
}

impl<B> ExpertLRUCache<B> {
    /// The model of the cache, for keys over `num_experts` experts per layer.
    pub closed spec fn view_for(self, num_experts: int) -> ExpertCacheView<B> {
        ExpertCacheView {
            index: self.index.view_for(num_experts),
            buffers: self.buffers@,
            hits: self.hits as int,
            misses: self.misses as int,
        }
    }

    pub closed spec fn wf(self, num_experts: int) -> bool {
        &&& self.index.wf(num_experts)
        &&& self.buffers@.len() == self.index.view_for(num_experts).capacity()
    }

    /// A cache with one entry per buffer, all of them empty.
    pub fn new(num_layers: i32, num_experts: i32, buffers: Vec<B>) -> (r: Self)
        requires
            0 <= num_layers,
            0 <= num_experts,
            num_layers * num_experts <= usize::MAX,
            buffers@.len() <= i32::MAX,
        ensures
            forall|ne: int| #[trigger] r.wf(ne),
            forall|ne: int|
                (#[trigger] r.view_for(ne)) == (ExpertCacheView {
                    index: LruView {
                        cells: Seq::new(buffers@.len(), |i: int| None::<int>),
                        last_used: Seq::new(buffers@.len(), |i: int| 0int),
                        pinned: Seq::new(buffers@.len(), |i: int| false),
                        used: 0,
                        clock: 0,
                        span: num_layers * num_experts,
                    },
                    buffers: buffers@,
                    hits: 0,
                    misses: 0,
                }),
    {
        assert(0 <= num_layers * num_experts) by (nonlinear_arith)
            requires
                0 <= num_layers,
                0 <= num_experts,
        ;
        let total: usize = num_layers as usize * num_experts as usize;
        let max_entries: usize = buffers.len();
        let r = ExpertLRUCache {
            buffers,
            index: LruIndex::new(total, max_entries),
            hits: 0,
            misses: 0,
        };
        assert forall|ne: int| #[trigger] r.wf(ne) by {
            assert(r.index.wf(ne));
            assert(r.index.view_for(ne).capacity() == max_entries);
        }
        r
    }

    /// Pin an entry: work in flight uses its buffer. An index out of range is ignored.
    pub fn pin(&mut self, entry_idx: usize)
        ensures
            forall|ne: int| old(self).wf(ne) ==> #[trigger] final(self).wf(ne),
            forall|ne: int|
                old(self).wf(ne) ==> (#[trigger] final(self).view_for(ne)) == (ExpertCacheView {
                    index: old(self).view_for(ne).index.with_pin(entry_idx as int, true),
                    ..old(self).view_for(ne)
                }),
    {
        self.index.set_pin(entry_idx, true);
    }

    /// Unpin an entry. An index out of range is ignored.
    pub fn unpin(&mut self, entry_idx: usize)
        ensures
            forall|ne: int| old(self).wf(ne) ==> #[trigger] final(self).wf(ne),
            forall|ne: int|
                old(self).wf(ne) ==> (#[trigger] final(self).view_for(ne)) == (ExpertCacheView {
                    index: old(self).view_for(ne).index.with_pin(entry_idx as int, false),
                    ..old(self).view_for(ne)
                }),
    {
        self.index.set_pin(entry_idx, false);
    }

    /// The entry that holds an expert of a layer, or -1 if it is not cached.
    pub fn entry_index(&self, layer_idx: i32, expert_idx: i32, num_experts: i32) -> (r: i32)
        requires
            self.wf(num_experts as int),
            valid_key(
                self.view_for(num_experts as int),
                layer_idx as int,
                expert_idx as int,
                num_experts as int,
            ),
        ensures
            ({
                let v = self.view_for(num_experts as int).index;
                let c = cell_of(layer_idx as int, expert_idx as int, num_experts as int);
                if v.holds(c) {
                    r == v.slot_of(c) && v.is_slot(r as int, c)
                } else {
                    r == -1
                }
            }),
    {
        self.index.find(layer_idx, expert_idx, num_experts)
    }

    /// Unpin the entries of a batch. Indices out of range are ignored.
    pub fn unpin_batch(&mut self, indices: &[usize])
        ensures
            forall|ne: int| old(self).wf(ne) ==> #[trigger] final(self).wf(ne),
            forall|ne: int|
                old(self).wf(ne) ==> (#[trigger] final(self).view_for(ne)) == (ExpertCacheView {
                    index: LruView {
                        pinned: unpinned(old(self).view_for(ne).index.pinned, indices@),
                        ..old(self).view_for(ne).index
                    },
                    ..old(self).view_for(ne)
                }),
    {
        let ghost s0 = *self;
        proof {
            assert forall|ne: int| unpinned(
                (#[trigger] s0.view_for(ne)).index.pinned,
                indices@.take(0),
            ) == s0.view_for(ne).index.pinned by {
                let p0 = s0.view_for(ne).index.pinned;
                assert(unpinned(p0, indices@.take(0)) =~= p0);
            }
        }
        for i in 0..indices.len()
            invariant
                forall|ne: int| s0.wf(ne) ==> #[trigger] self.wf(ne),
                forall|ne: int|
                    s0.wf(ne) ==> (#[trigger] self.view_for(ne)) == (ExpertCacheView {
                        index: LruView {
                            pinned: unpinned(
                                s0.view_for(ne).index.pinned,
                                indices@.take(i as int),
                            ),
                            ..s0.view_for(ne).index
                        },
                        ..s0.view_for(ne)
                    }),
        {
            let ghost s1 = *self;
            self.unpin(indices[i]);
            proof {
                let taken = indices@.take(i as int);
                let next = indices@.take(i + 1);
                assert forall|ne: int| s0.wf(ne) implies (#[trigger] self.view_for(ne)) == (
                ExpertCacheView {
                    index: LruView {
                        pinned: unpinned(s0.view_for(ne).index.pinned, next),
                        ..s0.view_for(ne).index
                    },
                    ..s0.view_for(ne)
                }) by {
                    assert(s1.wf(ne));
                    lemma_cache_view_wf(s0, ne);
                    lemma_cache_view_wf(s1, ne);
                    let p0 = s0.view_for(ne).index.pinned;
                    assert(s1.view_for(ne).index.pinned == unpinned(p0, taken));
                    assert(self.view_for(ne).index.pinned =~= unpinned(p0, next)) by {
                        assert forall|j: int|
                            0 <= j < p0.len() implies self.view_for(ne).index.pinned[j]
                            == unpinned(p0, next)[j] by {
                            lemma_listed_take(indices@, i as int, j);
                        }
                    }
                }
            }
        }
        proof {
            assert(indices@.take(indices@.len() as int) =~= indices@);
        }
    }

    /// Look an expert up. A hit makes its entry the most recently used one.
    pub fn lookup(&mut self, layer_idx: i32, expert_idx: i32, num_experts: i32) -> (r: Option<&B>)
        requires
            old(self).wf(num_experts as int),
            valid_key(
                old(self).view_for(num_experts as int),
                layer_idx as int,
                expert_idx as int,
                num_experts as int,
            ),
            old(self).view_for(num_experts as int).index.clock < u64::MAX,
            old(self).view_for(num_experts as int).hits < u64::MAX,
            old(self).view_for(num_experts as int).misses < u64::MAX,
        ensures
            final(self).wf(num_experts as int),
            ({
                let v = old(self).view_for(num_experts as int);
                let c = cell_of(layer_idx as int, expert_idx as int, num_experts as int);
                &&& final(self).view_for(num_experts as int) == v.after_lookup(c)
                &&& r == (if v.index.holds(c) {
                    Some(&v.buffers[v.index.slot_of(c)])
                } else {
                    None
                })
            }),
    {
        proof {
            lemma_cache_view_wf(*self, num_experts as int);
        }
        let idx: i32 = self.index.find(layer_idx, expert_idx, num_experts);
        if idx >= 0 {
            self.index.touch(idx as usize, Ghost(num_experts as int));
            self.hits = self.hits + 1;
            Some(&self.buffers[idx as usize])
        } else {
            self.misses = self.misses + 1;
            None
        }
    }

    /// Cache an expert and return its buffer, which the caller fills. If the expert is cached
    /// already, its entry becomes the most recently used one; the counters stay.
    pub fn insert(&mut self, layer_idx: i32, expert_idx: i32, num_experts: i32) -> (r: &B)
        requires
            old(self).wf(num_experts as int),
            valid_key(
                old(self).view_for(num_experts as int),
                layer_idx as int,
                expert_idx as int,
                num_experts as int,
            ),
            old(self).view_for(num_experts as int).index.capacity() > 0,
            old(self).view_for(num_experts as int).index.clock < u64::MAX,
        ensures
            final(self).wf(num_experts as int),
            inserted(
                old(self).view_for(num_experts as int),
                final(self).view_for(num_experts as int),
                cell_of(layer_idx as int, expert_idx as int, num_experts as int),
            ),
            *r == final(self).view_for(num_experts as int).buffers[final(self).view_for(
                num_experts as int,
            ).index.slot_of(
                cell_of(layer_idx as int, expert_idx as int, num_experts as int),
            )],
    {
        let ghost ne = num_experts as int;
        let ghost c = cell_of(layer_idx as int, expert_idx as int, ne);
        let ghost v0 = self.view_for(ne);
        proof {
            lemma_cache_view_wf(*self, ne);
            assert(0 <= c) by (nonlinear_arith)
                requires
                    c == layer_idx * ne + expert_idx,
                    layer_idx >= 0,
                    ne >= 0,
                    expert_idx >= 0,
            ;
        }
        let idx: i32 = self.index.find(layer_idx, expert_idx, num_experts);
        if idx >= 0 {
            self.index.touch(idx as usize, Ghost(ne));
            proof {
                lemma_slot_of(v0.index.touch(idx as int), idx as int, c);
            }
            &self.buffers[idx as usize]
        } else {
            let t: usize = self.index.claim(layer_idx, expert_idx, num_experts);
            proof {
                crate::lru::law_place_keeps_others(v0.index, t as int, c, c + 1);
                lemma_slot_of(v0.index.place(t as int, c), t as int, c);
            }
            &self.buffers[t]
        }
    }

    /// Look an expert up and cache it if it is missing: the entry, its buffer and whether it
    /// was cached. On a miss the caller fills the buffer.
    pub fn lookup_or_insert(&mut self, layer_idx: i32, expert_idx: i32, num_experts: i32) -> (r: (
        usize,
        &B,
        bool,
    ))
        requires
            old(self).wf(num_experts as int),
            valid_key(
                old(self).view_for(num_experts as int),
                layer_idx as int,
                expert_idx as int,
                num_experts as int,
            ),
            old(self).view_for(num_experts as int).index.capacity() > 0,
            old(self).view_for(num_experts as int).index.clock < u64::MAX,
            old(self).view_for(num_experts as int).hits < u64::MAX,
            old(self).view_for(num_experts as int).misses < u64::MAX,
        ensures
            final(self).wf(num_experts as int),
            ({
                let v = old(self).view_for(num_experts as int);
                let w = final(self).view_for(num_experts as int);
                let c = cell_of(layer_idx as int, expert_idx as int, num_experts as int);
                &&& r.2 == v.index.holds(c)
                &&& if r.2 {
                    w == v.hit(r.0 as int)
                } else {
                    v.index.is_victim(r.0 as int) && w == (ExpertCacheView {
                        index: v.index.place(r.0 as int, c),
                        ..v.miss()
                    })
                }
                &&& looked_up_or_inserted(v, w, c)
                &&& w.index.is_slot(r.0 as int, c)
                &&& r.0 < w.buffers.len()
                &&& *r.1 == w.buffers[r.0 as int]
            }),
    {
        let ghost ne = num_experts as int;
        let ghost c = cell_of(layer_idx as int, expert_idx as int, ne);
        let ghost v0 = self.view_for(ne);
        proof {
            lemma_cache_view_wf(*self, ne);
            assert(0 <= c) by (nonlinear_arith)
                requires
                    c == layer_idx * ne + expert_idx,
                    layer_idx >= 0,
                    ne >= 0,
                    expert_idx >= 0,
            ;
        }
        let idx: i32 = self.index.find(layer_idx, expert_idx, num_experts);
        if idx >= 0 {
            self.index.touch(idx as usize, Ghost(ne));
            self.hits = self.hits + 1;
            proof {
                lemma_slot_of(v0.index, idx as int, c);
            }
            (idx as usize, &self.buffers[idx as usize], true)
        } else {
            self.misses = self.misses + 1;
            let t: usize = self.index.claim(layer_idx, expert_idx, num_experts);
            proof {
                crate::lru::law_place_keeps_others(v0.index, t as int, c, c + 1);
            }
            (t, &self.buffers[t], false)
        }
    }

    /// Hit and miss counts.
    pub fn stats(&self) -> (r: (u64, u64))
        ensures
            forall|ne: int|
                (#[trigger] self.view_for(ne)).hits == r.0 && self.view_for(ne).misses == r.1,
    {
        (self.hits, self.misses)
    }

    /// Number of entries.
    pub closed spec fn num_entries(self) -> int {
        self.buffers@.len() as int
    }

    /// The buffer of an entry.
    pub fn buffer(&self, entry_idx: usize) -> (r: &B)
        requires
            entry_idx < self.num_entries(),
        ensures
            forall|ne: int| *r == (#[trigger] self.view_for(ne)).buffers[entry_idx as int],
    {
        &self.buffers[entry_idx]
    }
}

/// What inserting a cell does to the cache: a cached cell is touched, a new one is placed.
pub open spec fn inserted<B>(v: ExpertCacheView<B>, w: ExpertCacheView<B>, cell: int) -> bool {
    if v.index.holds(cell) {
        w == (ExpertCacheView { index: v.index.touch(v.index.slot_of(cell)), ..v })
    } else {
        exists|t: int|
            #[trigger] v.index.is_victim(t) && w == (ExpertCacheView {
                index: v.index.place(t, cell),
                ..v
            })
    }
}

/// What a lookup that caches a missing cell does to the cache.
pub open spec fn looked_up_or_inserted<B>(
    v: ExpertCacheView<B>,
    w: ExpertCacheView<B>,
    cell: int,
) -> bool {
    if v.index.holds(cell) {
        w == v.after_lookup(cell)
    } else {
        inserted(v.after_lookup(cell), w, cell)
    }
}

/// The slot of a cell is the one slot that holds it.
pub proof fn lemma_slot_of(v: LruView, i: int, cell: int)
    requires
        v.wf(),
        v.is_slot(i, cell),
    ensures
        v.holds(cell),
        v.slot_of(cell) == i,
{
    let s = v.slot_of(cell);
    assert(v.is_slot(s, cell));
    if s < i {
        assert(v.cells[s] != v.cells[i]);
    } else if i < s {
        assert(v.cells[i] != v.cells[s]);
    }
}

/// Whether a slot is listed.
pub open spec fn listed(indices: Seq<usize>, slot: int) -> bool {
    exists|k: int| 0 <= k < indices.len() && #[trigger] indices[k] == slot
}

/// The pins after the listed slots were unpinned.
pub open spec fn unpinned(pinned: Seq<bool>, indices: Seq<usize>) -> Seq<bool> {
    Seq::new(pinned.len(), |j: int| pinned[j] && !listed(indices, j))
}

proof fn lemma_listed_take(indices: Seq<usize>, i: int, slot: int)
    requires
        0 <= i < indices.len(),
    ensures
        listed(indices.take(i + 1), slot) <==> listed(indices.take(i), slot) || indices[i] == slot,
{
    let a = indices.take(i);
    let b = indices.take(i + 1);
    if listed(a, slot) {
        let k = choose|k: int| 0 <= k < a.len() && #[trigger] a[k] == slot;
        assert(b[k] == slot);
    }
    if indices[i] == slot {
        assert(b[i] == slot);
    }
    if listed(b, slot) {
        let k = choose|k: int| 0 <= k < b.len() && #[trigger] b[k] == slot;
        if k < i {
            assert(a[k] == slot);
        }
    }
}

/// A consistent cache has a well-formed model.
pub proof fn lemma_cache_view_wf<B>(c: ExpertLRUCache<B>, ne: int)
    requires
        c.wf(ne),
    ensures
        c.view_for(ne).wf(),
        c.view_for(ne).index.capacity() <= i32::MAX,
        0 <= c.view_for(ne).hits <= u64::MAX,
        0 <= c.view_for(ne).misses <= u64::MAX,
        c.num_entries() == c.view_for(ne).index.capacity(),
{
    crate::lru::lemma_index_view_wf(c.index, ne);
}

/// What `entry_index` gives for a cell.
pub open spec fn entry_of(v: LruView, cell: int) -> int {
    if v.holds(cell) {
        v.slot_of(cell)
    } else {
        -1
    }
}

/// The entry of a cell is -1 exactly where a lookup finds nothing; else it is a slot, the one
/// whose buffer the lookup gives. Different cells have different slots.
pub proof fn law_entry_is_where_lookup_finds<B>(v: ExpertCacheView<B>, cell: int, other: int)
    requires
        v.wf(),
    ensures
        -1 <= entry_of(v.index, cell) < v.index.capacity(),
        entry_of(v.index, cell) == -1 <==> v.after_lookup(cell) == v.miss(),
        v.index.holds(cell) ==> v.after_lookup(cell) == v.hit(entry_of(v.index, cell)),
        v.index.holds(cell) && v.index.holds(other) && entry_of(v.index, cell) == entry_of(
            v.index,
            other,
        ) ==> cell == other,
{
    if v.index.holds(cell) {
        assert(v.index.is_slot(v.index.slot_of(cell), cell));
        assert(v.hit(v.index.slot_of(cell)).hits != v.miss().hits);
    }
    if v.index.holds(other) {
        assert(v.index.is_slot(v.index.slot_of(other), other));
    }
}

/// Inserting caches the cell. Another cell keeps its slot as long as it is cached, and no other
/// cell appears. The number of cached cells grows by one until the cache is full, and stays if
/// the cell was cached already.
pub proof fn law_insert<B>(v: ExpertCacheView<B>, w: ExpertCacheView<B>, cell: int, other: int)
    requires
        v.wf(),
        0 < v.index.capacity(),
        0 <= cell < v.index.span,
        inserted(v, w, cell),
        other != cell,
    ensures
        w.wf(),
        w.index.holds(cell),
        w.index.holds(other) ==> v.index.holds(other) && entry_of(w.index, other) == entry_of(
            v.index,
            other,
        ),
        v.index.holds(cell) ==> entry_of(w.index, cell) == entry_of(v.index, cell),
        w.index.capacity() == v.index.capacity(),
        cached_cells(w.index).len() == (if v.index.holds(cell) || cached_cells(v.index).len()
            == v.index.capacity() {
            cached_cells(v.index).len()
        } else {
            cached_cells(v.index).len() + 1
        }),
        w.hits == v.hits,
        w.misses == v.misses,
{
    law_capacity_bound(v.index);
    if v.index.holds(cell) {
        let s = v.index.slot_of(cell);
        assert(v.index.is_slot(s, cell));
        assert(w.index.is_slot(s, cell));
        assert(w.index.wf());
        lemma_slot_of(w.index, s, cell);
    } else {
        let t = choose|t: int|
            #[trigger] v.index.is_victim(t) && w == (ExpertCacheView {
                index: v.index.place(t, cell),
                ..v
            });
        law_place_keeps_others(v.index, t, cell, other);
        assert(w.index.is_slot(t, cell));
    }
    law_capacity_bound(w.index);
    if w.index.holds(other) {
        let s = w.index.slot_of(other);
        assert(w.index.is_slot(s, other));
        assert(v.index.is_slot(s, other));
        lemma_slot_of(v.index, s, other);
        lemma_slot_of(w.index, s, other);
    }
}

/// A pinned entry is not evicted while another slot is not pinned, whatever is inserted.
pub proof fn law_pinned_entry_kept<B>(
    v: ExpertCacheView<B>,
    w: ExpertCacheView<B>,
    cell: int,
    slot: int,
    kept: int,
)
    requires
        v.wf(),
        inserted(v, w, cell),
        v.index.is_slot(slot, kept),
        v.index.pinned[slot],
        !v.index.all_pinned(),
    ensures
        w.index.is_slot(slot, kept),
        w.index.pinned[slot],
{
    if !v.index.holds(cell) {
        let t = choose|t: int|
            #[trigger] v.index.is_victim(t) && w == (ExpertCacheView {
                index: v.index.place(t, cell),
                ..v
            });
        law_pinned_slot_kept(v.index, t, slot);
    }
}

/// A lookup that caches what is missing does what a lookup and, if it found nothing, an
/// insertion do.
pub proof fn law_lookup_or_insert_is_both<B>(
    v: ExpertCacheView<B>,
    cell: int,
    w: ExpertCacheView<B>,
    u: ExpertCacheView<B>,
)
    requires
        v.wf(),
        looked_up_or_inserted(v, w, cell),
        if v.index.holds(cell) {
            u == v.after_lookup(cell)
        } else {
            inserted(v.after_lookup(cell), u, cell)
        },
    ensures
        w == u,
{
    if !v.index.holds(cell) {
        let m = v.after_lookup(cell);
        let t1 = choose|t: int|
            #[trigger] m.index.is_victim(t) && w == (ExpertCacheView {
                index: m.index.place(t, cell),
                ..m
            });
        let t2 = choose|t: int|
            #[trigger] m.index.is_victim(t) && u == (ExpertCacheView {
                index: m.index.place(t, cell),
                ..m
            });
        law_victim_unique(m.index, t1, t2);
    }
}

/// A call of the cache, with the cell or the slots that it names.
pub enum CacheCall {
    Lookup(int),
    LookupOrInsert(int),
    Insert(int),
    Pin(int),
    Unpin(int),
    UnpinBatch(Seq<usize>),
    EntryIndex(int),
}

/// What a call does to the cache.
pub open spec fn called<B>(v: ExpertCacheView<B>, call: CacheCall, w: ExpertCacheView<B>) -> bool {
    match call {
        CacheCall::Lookup(c) => w == v.after_lookup(c),
        CacheCall::LookupOrInsert(c) => looked_up_or_inserted(v, w, c),
        CacheCall::Insert(c) => inserted(v, w, c),
        CacheCall::Pin(i) => w == (ExpertCacheView { index: v.index.with_pin(i, true), ..v }),
        CacheCall::Unpin(i) => w == (ExpertCacheView { index: v.index.with_pin(i, false), ..v }),
        CacheCall::UnpinBatch(indices) => w == (ExpertCacheView {
            index: LruView { pinned: unpinned(v.index.pinned, indices), ..v.index },
            ..v
        }),
        CacheCall::EntryIndex(c) => w == v,
    }
}

/// The call looks something up.
pub open spec fn looks_up(call: CacheCall) -> Option<int> {
    match call {
        CacheCall::Lookup(c) => Some(c),
        CacheCall::LookupOrInsert(c) => Some(c),
        _ => None,
    }
}

/// The states of a cache between calls.
pub open spec fn is_history<B>(states: Seq<ExpertCacheView<B>>, calls: Seq<CacheCall>) -> bool {
    &&& states.len() == calls.len() + 1
    &&& forall|i: int|
        0 <= i < calls.len() ==> called(#[trigger] states[i], calls[i], states[i + 1])
}

/// How many of the first `n` calls looked up a cell that was cached (`found`), or one that was
/// not.
pub open spec fn lookups<B>(
    states: Seq<ExpertCacheView<B>>,
    calls: Seq<CacheCall>,
    found: bool,
    n: int,
) -> int
    decreases n,
{
    if n <= 0 {
        0
    } else {
        lookups(states, calls, found, n - 1) + match looks_up(calls[n - 1]) {
            Some(c) => if states[n - 1].index.holds(c) == found {
                1int
            } else {
                0int
            },
            None => 0int,
        }
    }
}

/// The counters report the lookups since the start, of either form, that found their cell and
/// those that did not; no other call is counted.
pub proof fn law_stats<B>(states: Seq<ExpertCacheView<B>>, calls: Seq<CacheCall>, n: int)
    requires
        is_history(states, calls),
        0 <= n <= calls.len(),
    ensures
        states[n].hits == states[0].hits + lookups(states, calls, true, n),
        states[n].misses == states[0].misses + lookups(states, calls, false, n),
    decreases n,
{
    if n > 0 {
        law_stats(states, calls, n - 1);
        assert(called(states[n - 1], calls[n - 1], states[n - 1 + 1]));
    }
}

/// Page size that host allocations are aligned to.
pub const PAGE_SIZE: usize = 16384;

/// A size rounded up to whole pages.
pub open spec fn page_aligned(size: int) -> int {
    (size + PAGE_SIZE - 1) / PAGE_SIZE as int * PAGE_SIZE
}

/// Round a size up to whole pages.
pub fn align_to_page(size: usize) -> (r: usize)
    requires
        size + PAGE_SIZE - 1 <= usize::MAX,
    ensures
        r == page_aligned(size as int),
        size <= r < size + PAGE_SIZE,
        r % PAGE_SIZE == 0,
{
    let mask: usize = PAGE_SIZE - 1;
    let up: usize = size + mask;
    assert(up & !mask == up / 16384 * 16384) by (bit_vector)
        requires
            mask == 16383,
    ;
    up & !mask
}

/// Mathematical model of a cache of host allocations.
pub struct MallocCacheView<P, B> {
    pub index: LruView,
    pub data: Seq<P>,
    pub metal_bufs: Seq<B>,
    pub hits: int,
    pub misses: int,
}

impl<P, B> MallocCacheView<P, B> {
    pub open spec fn wf(self) -> bool {
        &&& self.index.wf()
        &&& self.data.len() == self.index.capacity()
        &&& self.metal_bufs.len() == self.index.capacity()
        &&& forall|i: int| 0 <= i < self.index.capacity() ==> !#[trigger] self.index.pinned[i]
    }

    /// The cache after a lookup that found the cell in slot `i`.
    pub open spec fn hit(self, i: int) -> Self {
        MallocCacheView { index: self.index.touch(i), hits: self.hits + 1, ..self }
    }

    /// The cache after a lookup that found nothing.
    pub open spec fn miss(self) -> Self {
        MallocCacheView { misses: self.misses + 1, ..self }
    }

    /// A key that the table of the cache can hold.
    pub open spec fn valid_key(self, layer: int, expert: int, num_experts: int) -> bool {
        &&& 0 <= layer
        &&& 0 <= expert
        &&& 0 <= num_experts
        &&& cell_of(layer, expert, num_experts) < self.index.span
    }
}

/// Cache of page-aligned host allocations, each with a device buffer that wraps it. Entries
/// are replaced least recently used first and are never pinned.
pub struct MallocExpertCache<P, B> {
    data: Vec<P>,
    metal_bufs: Vec<B>,
    index: LruIndex,
    pub hits: u64,
    pub misses: u64,
}

impl<P: Copy, B> MallocExpertCache<P, B> {
    /// The model of the cache, for keys over `num_experts` experts per layer.
    pub closed spec fn view_for(self, num_experts: int) -> MallocCacheView<P, B> {
        MallocCacheView {
            index: self.index.view_for(num_experts),
            data: self.data@,
            metal_bufs: self.metal_bufs@,
            hits: self.hits as int,
            misses: self.misses as int,
        }
    }

    pub closed spec fn wf(self, num_experts: int) -> bool {
        self.index.wf(num_experts) && self.view_for(num_experts).wf()
    }

    /// Number of entries.
    pub closed spec fn num_entries(self) -> int {
        self.metal_bufs@.len() as int
    }

    /// A cache with one empty entry per allocation; `metal_bufs[i]` wraps `data[i]`.
    pub fn new(num_layers: i32, num_experts: i32, data: Vec<P>, metal_bufs: Vec<B>) -> (r: Self)
        requires
            0 <= num_layers,
            0 <= num_experts,
            num_layers * num_experts <= usize::MAX,
            data@.len() == metal_bufs@.len() <= i32::MAX,
        ensures
            forall|ne: int| #[trigger] r.wf(ne),
            r.num_entries() == data@.len(),
            forall|ne: int|
                (#[trigger] r.view_for(ne)) == (MallocCacheView {
                    index: LruView {
                        cells: Seq::new(data@.len(), |i: int| None::<int>),
                        last_used: Seq::new(data@.len(), |i: int| 0int),
                        pinned: Seq::new(data@.len(), |i: int| false),
                        used: 0,
                        clock: 0,
                        span: num_layers * num_experts,
                    },
                    data: data@,
                    metal_bufs: metal_bufs@,
                    hits: 0,
                    misses: 0,
                }),
    {
        assert(0 <= num_layers * num_experts) by (nonlinear_arith)
            requires
                0 <= num_layers,
                0 <= num_experts,
        ;
        let total: usize = num_layers as usize * num_experts as usize;
        let max_entries: usize = data.len();
        let r = MallocExpertCache {
            data,
            metal_bufs,
            index: LruIndex::new(total, max_entries),
            hits: 0,
            misses: 0,
        };
        assert forall|ne: int| #[trigger] r.wf(ne) by {
            assert(r.index.wf(ne));
            crate::lru::lemma_index_view_wf(r.index, ne);
            let v = r.view_for(ne);
            assert(v.index == r.index.view_for(ne));
        }
        r
    }

    /// Look an expert up: its allocation and entry. A hit makes the entry the most recently
    /// used one.
    pub fn lookup(&mut self, layer: i32, expert: i32, num_experts: i32) -> (r: Option<(P, usize)>)
        requires
            old(self).wf(num_experts as int),
            old(self).view_for(num_experts as int).valid_key(
                layer as int,
                expert as int,
                num_experts as int,
            ),
            old(self).view_for(num_experts as int).index.clock < u64::MAX,
            old(self).view_for(num_experts as int).hits < u64::MAX,
            old(self).view_for(num_experts as int).misses < u64::MAX,
        ensures
            final(self).wf(num_experts as int),
            ({
                let v = old(self).view_for(num_experts as int);
                let w = final(self).view_for(num_experts as int);
                let c = cell_of(layer as int, expert as int, num_experts as int);
                if v.index.holds(c) {
                    &&& r matches Some((p, i))
                    &&& v.index.is_slot(i as int, c)
                    &&& p == v.data[i as int]
                    &&& w == v.hit(i as int)
                } else {
                    r is None && w == v.miss()
                }
            }),
    {
        let idx: i32 = self.index.find(layer, expert, num_experts);
        if idx >= 0 {
            self.index.touch(idx as usize, Ghost(num_experts as int));
            self.hits = self.hits + 1;
            proof {
                crate::lru::lemma_index_view_wf(self.index, num_experts as int);
            }
            Some((self.data[idx as usize], idx as usize))
        } else {
            self.misses = self.misses + 1;
            None
        }
    }

    /// The device buffer of an entry.
    pub fn metal_buf(&self, entry_idx: usize) -> (r: &B)
        requires
            entry_idx < self.num_entries(),
        ensures
            forall|ne: int| *r == (#[trigger] self.view_for(ne)).metal_bufs[entry_idx as int],
    {
        &self.metal_bufs[entry_idx]
    }

    /// Look an expert up and cache it if it is missing: the entry, its device buffer, its
    /// allocation and whether it was cached. On a miss the caller fills the allocation.
    pub fn lookup_or_insert(&mut self, layer: i32, expert: i32, num_experts: i32) -> (r: (
        usize,
        &B,
        P,
        bool,
    ))
        requires
            old(self).wf(num_experts as int),
            old(self).view_for(num_experts as int).valid_key(
                layer as int,
                expert as int,
                num_experts as int,
            ),
            old(self).view_for(num_experts as int).index.capacity() > 0,
            old(self).view_for(num_experts as int).index.clock < u64::MAX,
            old(self).view_for(num_experts as int).hits < u64::MAX,
            old(self).view_for(num_experts as int).misses < u64::MAX,
        ensures
            final(self).wf(num_experts as int),
            ({
                let v = old(self).view_for(num_experts as int);
                let w = final(self).view_for(num_experts as int);
                let c = cell_of(layer as int, expert as int, num_experts as int);
                &&& r.3 == v.index.holds(c)
                &&& if r.3 {
                    w == v.hit(r.0 as int)
                } else {
                    v.index.is_victim(r.0 as int) && w == (MallocCacheView {
                        index: v.index.place(r.0 as int, c),
                        ..v.miss()
                    })
                }
                &&& w.index.is_slot(r.0 as int, c)
                &&& *r.1 == w.metal_bufs[r.0 as int]
                &&& r.2 == w.data[r.0 as int]
            }),
    {
        let ghost ne = num_experts as int;
        let ghost c = cell_of(layer as int, expert as int, ne);
        let ghost v0 = self.view_for(ne);
        proof {
            assert(0 <= c) by (nonlinear_arith)
                requires
                    c == layer * ne + expert,
                    layer >= 0,
                    ne >= 0,
                    expert >= 0,
            ;
        }
        let idx: i32 = self.index.find(layer, expert, num_experts);
        if idx >= 0 {
            self.index.touch(idx as usize, Ghost(ne));
            self.hits = self.hits + 1;
            proof {
                crate::lru::lemma_index_view_wf(self.index, ne);
            }
            (idx as usize, &self.metal_bufs[idx as usize], self.data[idx as usize], true)
        } else {
            self.misses = self.misses + 1;
            let t: usize = self.index.claim(layer, expert, num_experts);
            proof {
                crate::lru::lemma_index_view_wf(self.index, ne);
                crate::lru::law_place_keeps_others(v0.index, t as int, c, c + 1);
            }
            (t, &self.metal_bufs[t], self.data[t], false)
        }
    }

    /// Cache an expert: its allocation and entry. If the expert is cached already, its entry
    /// becomes the most recently used one; the counters stay.
    pub fn insert(&mut self, layer: i32, expert: i32, num_experts: i32) -> (r: (P, usize))
        requires
            old(self).wf(num_experts as int),
            old(self).view_for(num_experts as int).valid_key(
                layer as int,
                expert as int,
                num_experts as int,
            ),
            old(self).view_for(num_experts as int).index.capacity() > 0,
            old(self).view_for(num_experts as int).index.clock < u64::MAX,
        ensures
            final(self).wf(num_experts as int),
            ({
                let v = old(self).view_for(num_experts as int);
                let w = final(self).view_for(num_experts as int);
                let c = cell_of(layer as int, expert as int, num_experts as int);
                &&& if v.index.holds(c) {
                    w == (MallocCacheView { index: v.index.touch(r.1 as int), ..v })
                } else {
                    v.index.is_victim(r.1 as int) && w == (MallocCacheView {
                        index: v.index.place(r.1 as int, c),
                        ..v
                    })
                }
                &&& w.index.is_slot(r.1 as int, c)
                &&& r.0 == w.data[r.1 as int]
            }),
    {
        let ghost ne = num_experts as int;
        let ghost c = cell_of(layer as int, expert as int, ne);
        let ghost v0 = self.view_for(ne);
        proof {
            assert(0 <= c) by (nonlinear_arith)
                requires
                    c == layer * ne + expert,
                    layer >= 0,
                    ne >= 0,
                    expert >= 0,
            ;
        }
        let idx: i32 = self.index.find(layer, expert, num_experts);
        if idx >= 0 {
            self.index.touch(idx as usize, Ghost(ne));
            proof {
                crate::lru::lemma_index_view_wf(self.index, ne);
            }
            (self.data[idx as usize], idx as usize)
        } else {
            let t: usize = self.index.claim(layer, expert, num_experts);
            proof {
                crate::lru::lemma_index_view_wf(self.index, ne);
                crate::lru::law_place_keeps_others(v0.index, t as int, c, c + 1);
            }
            (self.data[t], t)
        }
    }

    /// Hit and miss counts.
    pub fn stats(&self) -> (r: (u64, u64))
        ensures
            forall|ne: int|
                (#[trigger] self.view_for(ne)).hits == r.0 && self.view_for(ne).misses == r.1,
    {
        (self.hits, self.misses)
    }
}

/// A consistent cache has a well-formed model.
pub proof fn law_malloc_model_is_consistent<P: Copy, B>(c: MallocExpertCache<P, B>, ne: int)
    requires
        c.wf(ne),
    ensures
        c.view_for(ne).wf(),
        0 <= c.view_for(ne).hits <= u64::MAX,
        0 <= c.view_for(ne).misses <= u64::MAX,
        c.num_entries() == c.view_for(ne).index.capacity(),
{
}

/// A size rounded up to whole pages: no smaller, less than a page larger.
pub proof fn law_page_aligned(size: int)
    requires
        0 <= size,
    ensures
        page_aligned(size) % 16384 == 0,
        size <= page_aligned(size) < size + 16384,
{
}

/// Taking the pins off a list of slots leaves all other pins as they are.
pub proof fn law_unpin_batch(pinned: Seq<bool>, indices: Seq<usize>, j: int)
    requires
        0 <= j < pinned.len(),
    ensures
        unpinned(pinned, indices).len() == pinned.len(),
        (exists|k: int| 0 <= k < indices.len() && #[trigger] indices[k] == j) ==> !unpinned(
            pinned,
            indices,
        )[j],
        (forall|k: int| 0 <= k < indices.len() ==> #[trigger] indices[k] != j) ==> unpinned(
            pinned,
            indices,
        )[j] == pinned[j],
{
}

} // verus!
