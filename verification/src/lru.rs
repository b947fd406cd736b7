//! Least-recently-used slot index shared by the expert caches.
//!
//! A key is a cell of a flat `layer * num_experts + expert` table. The index maps cells to
//! slots and slots back to cells, and remembers when each slot was used last.

use vstd::prelude::*;

verus! {

/// Mathematical model of the index.
pub struct LruView {
    /// The cell that each slot holds, `None` for a slot that was never filled.
    pub cells: Seq<Option<int>>,
    /// The clock value of the last use of each slot.
    pub last_used: Seq<int>,
    /// Slots that must not be chosen for eviction.
    pub pinned: Seq<bool>,
    /// Number of filled slots; they are the first ones.
    pub used: int,
    /// Clock, advanced by one on every use of a slot.
    pub clock: int,
    /// Number of cells that keys may name.
    pub span: int,
}

/// The cell of the table that belongs to an expert of a layer.
pub open spec fn cell_of(layer: int, expert: int, num_experts: int) -> int {
    layer * num_experts + expert
}

impl LruView {
    pub open spec fn capacity(self) -> int {
        self.cells.len() as int
    }

    pub open spec fn wf(self) -> bool {
        &&& self.last_used.len() == self.cells.len()
        &&& self.pinned.len() == self.cells.len()
        &&& 0 <= self.used <= self.cells.len()
        &&& 0 <= self.clock
        &&& forall|i: int|
            0 <= i < self.used ==> (#[trigger] self.cells[i]) is Some && 0 <= self.cells[i]->0
                < self.span
        &&& forall|i: int| self.used <= i < self.cells.len() ==> (#[trigger] self.cells[i]) is None
        &&& forall|i: int, j: int|
            0 <= i < j < self.used ==> #[trigger] self.cells[i] != #[trigger] self.cells[j]
        &&& forall|i: int| 0 <= i < self.used ==> 1 <= #[trigger] self.last_used[i] <= self.clock
        &&& forall|i: int|
            self.used <= i < self.cells.len() ==> #[trigger] self.last_used[i] == 0
        &&& forall|i: int, j: int|
            0 <= i < j < self.used ==> #[trigger] self.last_used[i] != #[trigger] self.last_used[j]
    }

    /// Slot `i` holds the cell.
    pub open spec fn is_slot(self, i: int, cell: int) -> bool {
        0 <= i < self.used && self.cells[i] == Some(cell)
    }

    /// The cell is cached.
    pub open spec fn holds(self, cell: int) -> bool {
        exists|i: int| self.is_slot(i, cell)
    }

    /// The slot that holds a cached cell.
    pub open spec fn slot_of(self, cell: int) -> int {
        choose|i: int| self.is_slot(i, cell)
    }

    /// The index after slot `i` was used.
    pub open spec fn touch(self, i: int) -> Self {
        LruView {
            last_used: self.last_used.update(i, self.clock + 1),
            clock: self.clock + 1,
            ..self
        }
    }

    /// The index after slot `i` was given to a cell.
    pub open spec fn place(self, i: int, cell: int) -> Self {
        LruView {
            cells: self.cells.update(i, Some(cell)),
            last_used: self.last_used.update(i, self.clock + 1),
            clock: self.clock + 1,
            used: if i == self.used {
                self.used + 1
            } else {
                self.used
            },
            ..self
        }
    }

    pub open spec fn all_pinned(self) -> bool {
        forall|i: int| 0 <= i < self.capacity() ==> #[trigger] self.pinned[i]
    }

    /// The slot that the next new cell goes to: the first free slot; when the index is full,
    /// the slot that was used least recently among those that are not pinned; when every slot
    /// is pinned, slot 0.
    pub open spec fn is_victim(self, t: int) -> bool {
        if self.used < self.capacity() {
            t == self.used
        } else if self.all_pinned() {
            t == 0
        } else {
            &&& 0 <= t < self.capacity()
            &&& !self.pinned[t]
            &&& forall|j: int|
                0 <= j < self.capacity() && !self.pinned[j] ==> self.last_used[t]
                    <= #[trigger] self.last_used[j]
        }
    }

    pub open spec fn with_pin(self, i: int, on: bool) -> Self {
        if 0 <= i < self.capacity() {
            LruView { pinned: self.pinned.update(i, on), ..self }
        } else {
            self
        }
    }
}

/// Slot index with least-recently-used replacement.
pub struct LruIndex {
    layer_idx: Vec<i32>,
    expert_idx: Vec<i32>,
    last_used: Vec<u64>,
    pin_mask: Vec<u8>,
    entry_idx: Vec<i32>,
    used_entries: usize,
    access_counter: u64,
}

impl LruIndex {
    /// The cell that slot `i` stores.
    closed spec fn stored_cell(self, i: int, num_experts: int) -> int {
        cell_of(self.layer_idx@[i] as int, self.expert_idx@[i] as int, num_experts)
    }

    /// The model of the index, for keys over `num_experts` experts per layer.
    pub closed spec fn view_for(self, num_experts: int) -> LruView {
        LruView {
            cells: Seq::new(
                self.layer_idx@.len(),
                |i: int|
                    if i < self.used_entries {
                        Some(self.stored_cell(i, num_experts))
                    } else {
                        None
                    },
            ),
            last_used: Seq::new(self.last_used@.len(), |i: int| self.last_used@[i] as int),
            pinned: Seq::new(self.pin_mask@.len(), |i: int| self.pin_mask@[i] != 0),
            used: self.used_entries as int,
            clock: self.access_counter as int,
            span: self.entry_idx@.len() as int,
        }
    }

    /// The two directions of the index agree.
    pub closed spec fn wf(self, num_experts: int) -> bool {
        let v = self.view_for(num_experts);
        &&& v.wf()
        &&& self.layer_idx@.len() == self.expert_idx@.len()
        &&& self.layer_idx@.len() <= i32::MAX
        &&& forall|i: int|
            0 <= i < self.used_entries ==> 0 <= #[trigger] self.layer_idx@[i] && 0
                <= self.expert_idx@[i] && self.entry_idx@[self.stored_cell(i, num_experts)] == i
        &&& forall|c: int|
            0 <= c < self.entry_idx@.len() ==> -1 <= #[trigger] self.entry_idx@[c]
                < self.used_entries
        &&& forall|c: int|
            0 <= c < self.entry_idx@.len() && #[trigger] self.entry_idx@[c] >= 0
                ==> self.stored_cell(self.entry_idx@[c] as int, num_experts) == c
    }

    /// An index of `max_entries` empty slots over `span` cells.
    pub fn new(span: usize, max_entries: usize) -> (r: Self)
        requires
            max_entries <= i32::MAX,
        ensures
            forall|ne: int| #[trigger] r.wf(ne),
            forall|ne: int|
                (#[trigger] r.view_for(ne)) == (LruView {
                    cells: Seq::new(max_entries as nat, |i: int| None::<int>),
                    last_used: Seq::new(max_entries as nat, |i: int| 0int),
                    pinned: Seq::new(max_entries as nat, |i: int| false),
                    used: 0,
                    clock: 0,
                    span: span as int,
                }),
    {
        let r = LruIndex {
            layer_idx: vec![-1i32; max_entries],
            expert_idx: vec![-1i32; max_entries],
            last_used: vec![0u64; max_entries],
            pin_mask: vec![0u8; max_entries],
            entry_idx: vec![-1i32; span],
            used_entries: 0,
            access_counter: 0,
        };
        assert forall|ne: int|
            (#[trigger] r.view_for(ne)) == (LruView {
                cells: Seq::new(max_entries as nat, |i: int| None::<int>),
                last_used: Seq::new(max_entries as nat, |i: int| 0int),
                pinned: Seq::new(max_entries as nat, |i: int| false),
                used: 0,
                clock: 0,
                span: span as int,
            }) by {
            let v = r.view_for(ne);
            assert(v.cells =~= Seq::new(max_entries as nat, |i: int| None::<int>));
            assert(v.last_used =~= Seq::new(max_entries as nat, |i: int| 0int));
            assert(v.pinned =~= Seq::new(max_entries as nat, |i: int| false));
        }
        r
    }

    /// Number of slots.
    pub fn capacity(&self) -> (n: usize)
        ensures
            forall|ne: int| n == (#[trigger] self.view_for(ne)).capacity(),
    {
        self.layer_idx.len()
    }

    /// The table position of a key.
    fn cell(&self, layer: i32, expert: i32, num_experts: i32) -> (c: usize)
        requires
            0 <= layer,
            0 <= expert,
            0 <= num_experts,
            cell_of(layer as int, expert as int, num_experts as int) < self.entry_idx@.len(),
        ensures
            c == cell_of(layer as int, expert as int, num_experts as int),
    {
        assert(0 <= layer * num_experts) by (nonlinear_arith)
            requires
                0 <= layer,
                0 <= num_experts,
        ;
        assert(self.entry_idx@.len() == self.entry_idx.len());
        layer as usize * num_experts as usize + expert as usize
    }

    /// The slot that holds the key, or -1.
    pub fn find(&self, layer: i32, expert: i32, num_experts: i32) -> (r: i32)
        requires
            self.wf(num_experts as int),
            0 <= layer,
            0 <= expert,
            0 <= num_experts,
            cell_of(layer as int, expert as int, num_experts as int) < self.view_for(
                num_experts as int,
            ).span,
        ensures
            ({
                let v = self.view_for(num_experts as int);
                let c = cell_of(layer as int, expert as int, num_experts as int);
                if v.holds(c) {
                    r == v.slot_of(c) && v.is_slot(r as int, c)
                } else {
                    r == -1
                }
            }),
    {
        let c: usize = self.cell(layer, expert, num_experts);
        let r: i32 = self.entry_idx[c];
        proof {
            let v = self.view_for(num_experts as int);
            if r >= 0 {
                assert(v.cells[r as int] == Some(c as int));
                assert(v.is_slot(r as int, c as int));
                let s = v.slot_of(c as int);
                assert(v.is_slot(s, c as int));
                if s < r {
                    assert(v.cells[s] != v.cells[r as int]);
                } else if r < s {
                    assert(v.cells[r as int] != v.cells[s]);
                }
            } else {
                assert forall|i: int| !v.is_slot(i, c as int) by {
                    if v.is_slot(i, c as int) {
                        assert(self.layer_idx@[i] >= 0);
                        assert(self.entry_idx@[self.stored_cell(i, num_experts as int)] == i);
                    }
                }
            }
        }
        r
    }

    /// Use slot `slot`: it becomes the most recently used one.
    pub(crate) fn touch(&mut self, slot: usize, num_experts: Ghost<int>)
        requires
            old(self).wf(num_experts@),
            slot < old(self).view_for(num_experts@).used,
            old(self).view_for(num_experts@).clock < u64::MAX,
        ensures
            final(self).wf(num_experts@),
            final(self).view_for(num_experts@) == old(self).view_for(num_experts@).touch(
                slot as int,
            ),
    {
        let ghost ne = num_experts@;
        let ghost v0 = self.view_for(ne);
        self.access_counter = self.access_counter + 1;
        self.last_used.set(slot, self.access_counter);
        proof {
            let v1 = v0.touch(slot as int);
            let v = self.view_for(ne);
            assert(v.cells =~= v1.cells);
            assert(v.last_used =~= v1.last_used);
            assert(v.pinned =~= v1.pinned);
            lemma_touch_wf(v0, slot as int);
        }
    }

    /// The slot that a new cell would be given.
    fn victim(&self, num_experts: Ghost<int>) -> (t: usize)
        requires
            self.wf(num_experts@),
            0 < self.view_for(num_experts@).capacity(),
            self.view_for(num_experts@).clock < u64::MAX,
        ensures
            self.view_for(num_experts@).is_victim(t as int),
            t < self.view_for(num_experts@).capacity(),
    {
        let ghost v = self.view_for(num_experts@);
        let n: usize = self.layer_idx.len();
        if self.used_entries < n {
            return self.used_entries;
        }
        let mut lru_idx: usize = 0;
        let mut min_used: u64 = u64::MAX;
        for i in 0..n
            invariant
                v == self.view_for(num_experts@),
                v.wf(),
                v.used == v.capacity() == n,
                v.clock < u64::MAX,
                lru_idx < n,
                min_used == u64::MAX ==> lru_idx == 0 && forall|j: int|
                    0 <= j < i ==> #[trigger] v.pinned[j],
                min_used != u64::MAX ==> !v.pinned[lru_idx as int] && min_used
                    == v.last_used[lru_idx as int],
                forall|j: int|
                    0 <= j < i && !v.pinned[j] ==> min_used <= #[trigger] v.last_used[j],
        {
            assert(v.pinned[i as int] == (self.pin_mask@[i as int] != 0));
            assert(v.last_used[i as int] == self.last_used@[i as int]);
            if self.pin_mask[i] == 0 && self.last_used[i] < min_used {
                min_used = self.last_used[i];
                lru_idx = i;
            }
        }
        if min_used == u64::MAX {
            lru_idx = 0;
        }
        lru_idx
    }

    /// Give a slot to a key that is not in the index, dropping the key it held before.
    pub fn claim(&mut self, layer: i32, expert: i32, num_experts: i32) -> (t: usize)
        requires
            old(self).wf(num_experts as int),
            0 <= layer,
            0 <= expert,
            0 <= num_experts,
            cell_of(layer as int, expert as int, num_experts as int) < old(self).view_for(
                num_experts as int,
            ).span,
            !old(self).view_for(num_experts as int).holds(
                cell_of(layer as int, expert as int, num_experts as int),
            ),
            0 < old(self).view_for(num_experts as int).capacity(),
            old(self).view_for(num_experts as int).clock < u64::MAX,
        ensures
            final(self).wf(num_experts as int),
            old(self).view_for(num_experts as int).is_victim(t as int),
            t < old(self).view_for(num_experts as int).capacity(),
            final(self).view_for(num_experts as int) == old(self).view_for(
                num_experts as int,
            ).place(t as int, cell_of(layer as int, expert as int, num_experts as int)),
    {
        let ghost ne = num_experts as int;
        let ghost v0 = self.view_for(ne);
        let c: usize = self.cell(layer, expert, num_experts);
        let t: usize = self.victim(Ghost(ne));
        if t == self.used_entries {
            self.used_entries = self.used_entries + 1;
        } else {
            let old_layer: i32 = self.layer_idx[t];
            let old_expert: i32 = self.expert_idx[t];
            proof {
                assert(v0.cells[t as int] is Some);
                assert(v0.cells[t as int] == Some(self.stored_cell(t as int, ne)));
            }
            let old_cell: usize = self.cell(old_layer, old_expert, num_experts);
            self.entry_idx.set(old_cell, -1);
        }
        self.layer_idx.set(t, layer);
        self.expert_idx.set(t, expert);
        self.access_counter = self.access_counter + 1;
        self.last_used.set(t, self.access_counter);
        self.entry_idx.set(c, t as i32);
        proof {
            let v1 = v0.place(t as int, c as int);
            let v = self.view_for(ne);
            assert(v.cells =~= v1.cells);
            assert(v.last_used =~= v1.last_used);
            assert(v.pinned =~= v1.pinned);
            lemma_place_wf(v0, t as int, c as int);
            assert forall|i: int| 0 <= i < self.used_entries implies 0
                <= #[trigger] self.layer_idx@[i] && 0 <= self.expert_idx@[i]
                && self.entry_idx@[self.stored_cell(i, ne)] == i by {
                if i != t {
                    assert(old(self).layer_idx@[i] >= 0);
                    assert(v0.cells[i] == Some(old(self).stored_cell(i, ne)));
                    assert(!v0.is_slot(i, c as int));
                    if t < v0.used {
                        assert(v0.cells[t as int] == Some(old(self).stored_cell(t as int, ne)));
                        if i < t {
                            assert(v0.cells[i] != v0.cells[t as int]);
                        } else {
                            assert(v0.cells[t as int] != v0.cells[i]);
                        }
                    }
                }
            }
            assert forall|k: int| 0 <= k < self.entry_idx@.len() implies -1
                <= #[trigger] self.entry_idx@[k] < self.used_entries by {
                assert(-1 <= old(self).entry_idx@[k] < old(self).used_entries);
            }
            assert forall|k: int|
                0 <= k < self.entry_idx@.len() && #[trigger] self.entry_idx@[k]
                    >= 0 implies self.stored_cell(self.entry_idx@[k] as int, ne) == k by {
                if k != c {
                    assert(old(self).entry_idx@[k] >= 0);
                    assert(old(self).stored_cell(old(self).entry_idx@[k] as int, ne) == k);
                    assert(old(self).entry_idx@[k] < old(self).used_entries);
                    if t < v0.used && self.entry_idx@[k] == t {
                        assert(old(self).stored_cell(t as int, ne) == k);
                    }
                }
            }
        }
        t
    }

    /// Set or clear the pin of a slot; a slot out of range is ignored.
    pub fn set_pin(&mut self, slot: usize, on: bool)
        ensures
            forall|ne: int| old(self).wf(ne) ==> #[trigger] final(self).wf(ne),
            forall|ne: int|
                old(self).wf(ne) ==> (#[trigger] final(self).view_for(ne)) == old(self).view_for(
                    ne,
                ).with_pin(slot as int, on),
    {
        let ghost s0 = *self;
        if slot < self.pin_mask.len() {
            self.pin_mask.set(slot, if on { 1 } else { 0 });
        }
        proof {
            assert forall|ne: int| s0.wf(ne) implies (#[trigger] self.view_for(ne)) == s0.view_for(
                ne,
            ).with_pin(slot as int, on) by {
                let v = self.view_for(ne);
                let v0 = s0.view_for(ne);
                assert(v.cells =~= v0.cells);
                assert(v.last_used =~= v0.last_used);
                assert(v.pinned =~= v0.with_pin(slot as int, on).pinned);
            }
            assert forall|ne: int| s0.wf(ne) implies #[trigger] self.wf(ne) by {
                assert(self.view_for(ne) == s0.view_for(ne).with_pin(slot as int, on));
                assert forall|i: int| #[trigger] self.stored_cell(i, ne) == s0.stored_cell(
                    i,
                    ne,
                ) by {}
            }
        }
    }
}

/// A consistent index has a well-formed model.
pub proof fn lemma_index_view_wf(ix: LruIndex, ne: int)
    requires
        ix.wf(ne),
    ensures
        ix.view_for(ne).wf(),
        ix.view_for(ne).capacity() <= i32::MAX,
{
}

/// Using a slot keeps the model well formed.
proof fn lemma_touch_wf(v: LruView, i: int)
    requires
        v.wf(),
        0 <= i < v.used,
    ensures
        v.touch(i).wf(),
{
}

/// Placing a new cell into a free or filled slot keeps the model well formed.
proof fn lemma_place_wf(v: LruView, t: int, cell: int)
    requires
        v.wf(),
        0 <= t < v.capacity(),
        t <= v.used,
        0 <= cell < v.span,
        !v.holds(cell),
    ensures
        v.place(t, cell).wf(),
{
    let w = v.place(t, cell);
    assert forall|i: int, j: int| 0 <= i < j < w.used implies #[trigger] w.cells[i]
        != #[trigger] w.cells[j] by {
        assert(!v.is_slot(i, cell));
        assert(!v.is_slot(j, cell));
        if i != t && j != t {
            assert(v.cells[i] != v.cells[j]);
        }
    }
    assert forall|i: int, j: int| 0 <= i < j < w.used implies #[trigger] w.last_used[i]
        != #[trigger] w.last_used[j] by {
        if i != t && j != t {
            assert(v.last_used[i] != v.last_used[j]);
        }
    }
}

/// Two keys share a cell only if they are the same key.
pub proof fn law_cells_distinct(layer1: int, expert1: int, layer2: int, expert2: int, ne: int)
    requires
        0 <= expert1 < ne,
        0 <= expert2 < ne,
        cell_of(layer1, expert1, ne) == cell_of(layer2, expert2, ne),
    ensures
        layer1 == layer2,
        expert1 == expert2,
{
    assert(layer1 == layer2) by (nonlinear_arith)
        requires
            0 <= expert1 < ne,
            0 <= expert2 < ne,
            layer1 * ne + expert1 == layer2 * ne + expert2,
    ;
}

/// The slot that the next new cell goes to is determined.
pub proof fn law_victim_unique(v: LruView, t1: int, t2: int)
    requires
        v.wf(),
        v.is_victim(t1),
        v.is_victim(t2),
    ensures
        t1 == t2,
{
    if v.used == v.capacity() && !v.all_pinned() && t1 != t2 {
        assert(v.last_used[t1] == v.last_used[t2]);
    }
}

/// While some slot is not pinned, no pinned slot is given away.
pub proof fn law_pinned_slot_kept(v: LruView, t: int, slot: int)
    requires
        v.wf(),
        v.is_victim(t),
        0 <= slot < v.used,
        v.pinned[slot],
        !v.all_pinned(),
    ensures
        t != slot,
{
}

/// A slot that was just used is given away only when every other slot is pinned.
pub proof fn law_touched_slot_last(v: LruView, slot: int, t: int, other: int)
    requires
        v.wf(),
        0 <= slot < v.used,
        0 <= other < v.capacity(),
        other != slot,
        !v.pinned[other],
        v.touch(slot).is_victim(t),
    ensures
        t != slot,
{
    let w = v.touch(slot);
    if v.used == v.capacity() {
        assert(w.last_used[other] == v.last_used[other]);
        assert(!w.pinned[other]);
    }
}

/// Placing a cell drops exactly the cell that the slot held: every other cached cell stays
/// where it was, and the new cell is found in its slot.
pub proof fn law_place_keeps_others(v: LruView, t: int, cell: int, other: int)
    requires
        v.wf(),
        v.is_victim(t),
        0 < v.capacity(),
        0 <= cell < v.span,
        !v.holds(cell),
        other != cell,
    ensures
        v.place(t, cell).wf(),
        v.place(t, cell).is_slot(t, cell),
        v.place(t, cell).holds(other) <==> v.holds(other) && !v.is_slot(t, other),
        forall|i: int|
            v.is_slot(i, other) && i != t ==> #[trigger] v.place(t, cell).is_slot(i, other),
{
    lemma_place_wf(v, t, cell);
    let w = v.place(t, cell);
    if w.holds(other) {
        let i = w.slot_of(other);
        assert(w.is_slot(i, other));
        assert(v.is_slot(i, other));
        assert(!v.is_slot(t, other)) by {
            if v.is_slot(t, other) {
                if i < t {
                    assert(v.cells[i] != v.cells[t]);
                } else if t < i {
                    assert(v.cells[t] != v.cells[i]);
                }
            }
        }
    }
    if v.holds(other) && !v.is_slot(t, other) {
        let i = v.slot_of(other);
        assert(v.is_slot(i, other));
        assert(w.is_slot(i, other));
    }
}

/// The set of cached cells.
pub open spec fn cached_cells(v: LruView) -> Set<int> {
    Set::new(|c: int| v.holds(c))
}

/// The index never caches more cells than it has slots.
pub proof fn law_capacity_bound(v: LruView)
    requires
        v.wf(),
    ensures
        cached_cells(v).finite(),
        cached_cells(v).len() == v.used,
        v.used <= v.capacity(),
{
    lemma_prefix_cells(v, v.used);
    assert(cached_cells(v) =~= prefix_cells(v, v.used)) by {
        assert forall|c: int| v.holds(c) implies prefix_cells(v, v.used).contains(c) by {
            let i = v.slot_of(c);
            assert(v.is_slot(i, c));
        }
        assert forall|c: int| prefix_cells(v, v.used).contains(c) implies v.holds(c) by {
            let i = choose|i: int| 0 <= i < v.used && #[trigger] v.cells[i] == Some(c);
            assert(v.is_slot(i, c));
        }
    }
}

spec fn prefix_cells(v: LruView, n: int) -> Set<int> {
    Set::new(|c: int| exists|i: int| 0 <= i < n && #[trigger] v.cells[i] == Some(c))
}

proof fn lemma_prefix_cells(v: LruView, n: int)
    requires
        v.wf(),
        0 <= n <= v.used,
    ensures
        prefix_cells(v, n).finite(),
        prefix_cells(v, n).len() == n,
    decreases n,
{
    if n == 0 {
        assert(prefix_cells(v, 0) =~= Set::<int>::empty());
    } else {
        lemma_prefix_cells(v, n - 1);
        let c = v.cells[n - 1]->0;
        assert(prefix_cells(v, n) =~= prefix_cells(v, n - 1).insert(c)) by {
            assert(v.cells[n - 1] == Some(c));
        }
        assert(!prefix_cells(v, n - 1).contains(c)) by {
            if prefix_cells(v, n - 1).contains(c) {
                let i = choose|i: int| 0 <= i < n - 1 && #[trigger] v.cells[i] == Some(c);
                assert(v.cells[i] != v.cells[n - 1]);
            }
        }
    }
}

/// What an insertion takes: a slot that was never filled, as long as there is one; then, of the
/// slots that are not pinned, the one whose last use lies furthest back; the first slot where all
/// are pinned.
pub proof fn law_victim_is_oldest(v: LruView, t: int, j: int)
    requires
        v.wf(),
        v.is_victim(t),
        0 <= j < v.capacity(),
    ensures
        0 <= t < v.capacity(),
        v.used < v.capacity() ==> v.cells[t] is None && (j < t ==> v.cells[j] is Some),
        v.used == v.capacity() && v.all_pinned() ==> t == 0,
        v.used == v.capacity() && !v.all_pinned() ==> !v.pinned[t],
        v.used == v.capacity() && !v.all_pinned() && j != t && !v.pinned[j] ==> v.last_used[t]
            < v.last_used[j],
{
    if v.used == v.capacity() && !v.all_pinned() && j != t && !v.pinned[j] {
        assert(v.last_used[t] <= v.last_used[j]);
        assert(v.last_used[t] != v.last_used[j]);
    }
}

/// A use makes a slot the one that was used last, and changes nothing else: every other slot
/// keeps its time, and all keep what they hold and their pins. Filling a slot does the same, and
/// gives it its cell.
pub proof fn law_use_is_latest(v: LruView, i: int, j: int, cell: int)
    requires
        v.wf(),
        0 <= i < v.capacity(),
        0 <= j < v.capacity(),
        i != j,
    ensures
        ({
            let w = v.touch(i);
            let u = v.place(i, cell);
            &&& w.last_used[j] == v.last_used[j] < w.last_used[i]
            &&& u.last_used[j] == v.last_used[j] < u.last_used[i]
            &&& w.cells == v.cells
            &&& u.cells[i] == Some(cell)
            &&& u.cells[j] == v.cells[j]
            &&& w.pinned == v.pinned
            &&& u.pinned == v.pinned
            &&& w.used == v.used
        }),
{
    if j >= v.used {
        assert(v.last_used[j] == 0);
    } else {
        assert(v.last_used[j] <= v.clock);
    }
}

/// A pin is set or taken off one slot; a place that is no slot has none.
pub proof fn law_pin_is_local(v: LruView, i: int, on: bool, j: int)
    requires
        v.wf(),
        0 <= j < v.capacity(),
    ensures
        ({
            let w = v.with_pin(i, on);
            &&& w.cells == v.cells
            &&& w.last_used == v.last_used
            &&& w.used == v.used
            &&& w.clock == v.clock
            &&& w.pinned.len() == v.pinned.len()
            &&& w.pinned[j] == (if i == j {
                on
            } else {
                v.pinned[j]
            })
        }),
{
}

} // verus!
