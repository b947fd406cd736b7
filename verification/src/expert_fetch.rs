//! Fetching the experts of a layer through the cache.

use vstd::prelude::*;

use crate::expert_cache::{
    inserted, lemma_cache_view_wf, lemma_slot_of, valid_key, ExpertCacheView, ExpertLRUCache,
};
use crate::lru::{cell_of, law_place_keeps_others, law_victim_unique, LruView};

verus! {

/// The cells of a layer's experts.
pub open spec fn cells_of(layer: int, experts: Seq<usize>, num_experts: int) -> Seq<int> {
    Seq::new(experts.len(), |i: int| cell_of(layer, experts[i] as int, num_experts))
}

/// The cache after the first `n` cells were looked up.
pub open spec fn after_lookups<B>(v: ExpertCacheView<B>, cells: Seq<int>, n: int) -> ExpertCacheView<
    B,
>
    decreases n,
{
    if n <= 0 {
        v
    } else {
        let w = after_lookups(v, cells, n - 1);
        if v.index.holds(cells[n - 1]) {
            w.hit(v.index.slot_of(cells[n - 1]))
        } else {
            w.miss()
        }
    }
}

/// The slots among the first `n` whose cell is not cached.
pub open spec fn missing<B>(v: ExpertCacheView<B>, cells: Seq<int>, n: int) -> Seq<usize>
    decreases n,
{
    if n <= 0 {
        Seq::empty()
    } else if v.index.holds(cells[n - 1]) {
        missing(v, cells, n - 1)
    } else {
        missing(v, cells, n - 1).push((n - 1) as usize)
    }
}

/// The cache after a cell was inserted.
pub open spec fn after_insert<B>(v: ExpertCacheView<B>, cell: int) -> ExpertCacheView<B> {
    if v.index.holds(cell) {
        ExpertCacheView { index: v.index.touch(v.index.slot_of(cell)), ..v }
    } else {
        ExpertCacheView {
            index: v.index.place(choose|t: int| v.index.is_victim(t), cell),
            ..v
        }
    }
}

/// The cache after the cells of the first `m` missing slots were inserted.
pub open spec fn after_inserts<B>(
    v: ExpertCacheView<B>,
    cells: Seq<int>,
    slots: Seq<usize>,
    m: int,
) -> ExpertCacheView<B>
    decreases m,
{
    if m <= 0 {
        v
    } else {
        after_insert(after_inserts(v, cells, slots, m - 1), cells[slots[m - 1] as int])
    }
}

/// The cache after a fetch.
pub open spec fn after_fetch<B>(v: ExpertCacheView<B>, cells: Seq<int>) -> ExpertCacheView<B> {
    let n = cells.len() as int;
    let slots = missing(v, cells, n);
    after_inserts(after_lookups(v, cells, n), cells, slots, slots.len() as int)
}

/// The slots' buffers after a fetch: those of cached experts come from the lookup, those of
/// the others from the insertion.
pub open spec fn fetched_data<B>(
    v: ExpertCacheView<B>,
    cells: Seq<int>,
    old_data: Seq<B>,
    data: Seq<B>,
) -> bool {
    let n = cells.len() as int;
    let slots = missing(v, cells, n);
    let w = after_lookups(v, cells, n);
    &&& data.len() == old_data.len()
    &&& forall|i: int|
        0 <= i < n && v.index.holds(#[trigger] cells[i]) ==> data[i]
            == v.buffers[v.index.slot_of(cells[i])]
    &&& forall|m: int|
        0 <= m < slots.len() ==> data[#[trigger] slots[m] as int] == v.buffers[after_inserts(
            w,
            cells,
            slots,
            m + 1,
        ).index.slot_of(cells[slots[m] as int])]
    &&& forall|i: int| n <= i < data.len() ==> data[i] == old_data[i]
}

/// The cache has room for a fetch of `n` experts of a layer.
pub open spec fn fetch_ready<B>(
    v: ExpertCacheView<B>,
    layer: int,
    experts: Seq<usize>,
    num_experts: int,
) -> bool {
    &&& 0 < v.index.capacity()
    &&& v.index.clock + experts.len() <= u64::MAX
    &&& v.hits + experts.len() <= u64::MAX
    &&& v.misses + experts.len() <= u64::MAX
    &&& forall|i: int|
        0 <= i < experts.len() ==> experts[i] <= i32::MAX && valid_key(
            v,
            layer,
            #[trigger] experts[i] as int,
            num_experts,
        )
}

/// Looking cells up moves no cell, and uses at most one tick per cell.
proof fn lemma_lookups<B>(v: ExpertCacheView<B>, cells: Seq<int>, n: int)
    requires
        v.wf(),
        0 <= n <= cells.len(),
    ensures
        ({
            let w = after_lookups(v, cells, n);
            &&& w.index.cells == v.index.cells
            &&& w.index.used == v.index.used
            &&& w.index.span == v.index.span
            &&& w.index.pinned == v.index.pinned
            &&& w.index.last_used.len() == v.index.last_used.len()
            &&& w.buffers == v.buffers
            &&& w.index.clock + missing(v, cells, n).len() == v.index.clock + n
            &&& v.hits <= w.hits <= v.hits + n
            &&& v.misses <= w.misses <= v.misses + n
            &&& forall|c: int| v.index.holds(c) <==> #[trigger] w.index.holds(c)
            &&& forall|c: int| v.index.holds(c) ==> #[trigger] w.index.slot_of(c)
                == v.index.slot_of(c)
            &&& w.wf()
        }),
    decreases n,
{
    let w = after_lookups(v, cells, n);
    if n > 0 {
        lemma_lookups(v, cells, n - 1);
        let u = after_lookups(v, cells, n - 1);
        if v.index.holds(cells[n - 1]) {
            let s = v.index.slot_of(cells[n - 1]);
            assert(v.index.is_slot(s, cells[n - 1]));
            assert forall|i: int, j: int| 0 <= i < j < w.index.used implies #[trigger] w.index.last_used[i]
                != #[trigger] w.index.last_used[j] by {
                assert(u.index.last_used[i] <= u.index.clock);
                assert(u.index.last_used[j] <= u.index.clock);
            }
            assert(w.index.wf());
        }
        assert forall|c: int| v.index.holds(c) <==> #[trigger] w.index.holds(c) by {
            assert(u.index.holds(c) <==> v.index.holds(c));
            if u.index.holds(c) {
                assert(w.index.is_slot(u.index.slot_of(c), c));
            }
            if w.index.holds(c) {
                assert(u.index.is_slot(w.index.slot_of(c), c));
            }
        }
    }
    assert forall|c: int| v.index.holds(c) implies #[trigger] w.index.slot_of(c)
        == v.index.slot_of(c) by {
        let s = v.index.slot_of(c);
        assert(v.index.is_slot(s, c));
        assert(w.index.is_slot(s, c));
        lemma_slot_of(w.index, s, c);
    }
}

/// The missing slots are in order, below `n`, and exactly those whose cell is not cached.
pub(crate) proof fn lemma_missing<B>(v: ExpertCacheView<B>, cells: Seq<int>, n: int)
    requires
        0 <= n <= cells.len() <= usize::MAX,
    ensures
        missing(v, cells, n).len() <= n,
        forall|m: int|
            0 <= m < missing(v, cells, n).len() ==> (#[trigger] missing(v, cells, n)[m]) < n
                && !v.index.holds(cells[missing(v, cells, n)[m] as int]),
        forall|m: int, l: int|
            0 <= m < l < missing(v, cells, n).len() ==> #[trigger] missing(v, cells, n)[m]
                < #[trigger] missing(v, cells, n)[l],
        forall|i: int|
            0 <= i < n && !v.index.holds(#[trigger] cells[i]) ==> missing(v, cells, n).contains(
                i as usize,
            ),
    decreases n,
{
    if n > 0 {
        lemma_missing(v, cells, n - 1);
        let a = missing(v, cells, n - 1);
        let b = missing(v, cells, n);
        assert forall|i: int| 0 <= i < n && !v.index.holds(#[trigger] cells[i]) implies b.contains(
            i as usize,
        ) by {
            if i < n - 1 {
                assert(a.contains(i as usize));
                let m = choose|m: int| 0 <= m < a.len() && a[m] == i as usize;
                assert(b[m] == i as usize);
            } else {
                assert(b[b.len() - 1] == i as usize);
            }
        }
    }
}

/// A slot for the next new cell exists.
pub(crate) proof fn lemma_victim_exists(v: LruView)
    requires
        v.wf(),
        0 < v.capacity(),
    ensures
        exists|t: int| v.is_victim(t),
{
    if v.used < v.capacity() {
        assert(v.is_victim(v.used));
    } else if v.all_pinned() {
        assert(v.is_victim(0));
    } else {
        let p = choose|i: int| 0 <= i < v.capacity() && !#[trigger] v.pinned[i];
        lemma_least_exists(v, p, 0);
    }
}

/// Among the slots that are not pinned one was used least recently.
proof fn lemma_least_exists(v: LruView, best: int, from: int)
    requires
        v.wf(),
        v.used == v.capacity(),
        !v.all_pinned(),
        0 <= best < v.capacity(),
        !v.pinned[best],
        0 <= from <= v.capacity(),
        forall|j: int|
            0 <= j < from && !v.pinned[j] ==> v.last_used[best] <= #[trigger] v.last_used[j],
    ensures
        exists|t: int| v.is_victim(t),
    decreases v.capacity() - from,
{
    if from == v.capacity() {
        assert(v.is_victim(best));
    } else if !v.pinned[from] && v.last_used[from] < v.last_used[best] {
        lemma_least_exists(v, from, from + 1);
    } else {
        lemma_least_exists(v, best, from + 1);
    }
}

/// Inserting is determined.
pub(crate) proof fn lemma_inserted<B>(v: ExpertCacheView<B>, w: ExpertCacheView<B>, cell: int)
    requires
        v.wf(),
        inserted(v, w, cell),
    ensures
        w == after_insert(v, cell),
{
    if !v.index.holds(cell) {
        let t = choose|t: int|
            #[trigger] v.index.is_victim(t) && w == (ExpertCacheView {
                index: v.index.place(t, cell),
                ..v
            });
        let u = choose|t: int| v.index.is_victim(t);
        law_victim_unique(v.index, t, u);
    }
}

/// Inserting a cell keeps the model well-formed, and afterwards the cell is cached.
pub proof fn law_insert_caches<B>(v: ExpertCacheView<B>, w: ExpertCacheView<B>, cell: int)
    requires
        v.wf(),
        0 < v.index.capacity(),
        0 <= cell < v.index.span,
        inserted(v, w, cell),
    ensures
        w.wf(),
        w.index.holds(cell),
        w.buffers == v.buffers,
        w.hits == v.hits,
        w.misses == v.misses,
        w.index.clock == v.index.clock + 1,
        w.index.span == v.index.span,
        w.index.pinned == v.index.pinned,
        w.index.capacity() == v.index.capacity(),
{
    if v.index.holds(cell) {
        let s = v.index.slot_of(cell);
        assert(v.index.is_slot(s, cell));
        assert(w.index.is_slot(s, cell));
        assert forall|i: int, j: int| 0 <= i < j < w.index.used implies #[trigger] w.index.last_used[i]
            != #[trigger] w.index.last_used[j] by {
            assert(v.index.last_used[i] <= v.index.clock);
            assert(v.index.last_used[j] <= v.index.clock);
        }
    } else {
        let t = choose|t: int|
            #[trigger] v.index.is_victim(t) && w == (ExpertCacheView {
                index: v.index.place(t, cell),
                ..v
            });
        law_place_keeps_others(v.index, t, cell, cell + 1);
        assert(w.index.is_slot(t, cell));
    }
}

/// Look a layer's experts up in the cache and make room for those that are not cached.
/// Afterwards `data` holds the buffer of each expert. Returns the slots whose buffer is to be
/// read from the expert file.
pub fn fetch_experts<B: Copy>(
    cache: &mut ExpertLRUCache<B>,
    layer: i32,
    num_experts: i32,
    experts: &[usize],
    data: &mut Vec<B>,
) -> (r: Vec<usize>)
    requires
        old(cache).wf(num_experts as int),
        fetch_ready(
            old(cache).view_for(num_experts as int),
            layer as int,
            experts@,
            num_experts as int,
        ),
        experts@.len() <= old(data)@.len(),
    ensures
        final(cache).wf(num_experts as int),
        ({
            let v = old(cache).view_for(num_experts as int);
            let cells = cells_of(layer as int, experts@, num_experts as int);
            &&& final(cache).view_for(num_experts as int) == after_fetch(v, cells)
            &&& r@ == missing(v, cells, cells.len() as int)
            &&& fetched_data(v, cells, old(data)@, final(data)@)
        }),
{
    let ghost ne = num_experts as int;
    let ghost v = cache.view_for(ne);
    let ghost cells = cells_of(layer as int, experts@, ne);
    let n: usize = experts.len();
    proof {
        lemma_cache_view_wf(*cache, ne);
    }
    let mut misses: Vec<usize> = Vec::new();
    for ki in 0..n
        invariant
            n == experts@.len(),
            n <= data@.len(),
            ne == num_experts,
            v.wf(),
            cells == cells_of(layer as int, experts@, ne),
            fetch_ready(v, layer as int, experts@, ne),
            cache.wf(ne),
            cache.view_for(ne) == after_lookups(v, cells, ki as int),
            misses@ == missing(v, cells, ki as int),
            data@.len() == old(data)@.len(),
            forall|i: int|
                0 <= i < ki && v.index.holds(#[trigger] cells[i]) ==> data@[i]
                    == v.buffers[v.index.slot_of(cells[i])],
            forall|i: int| n <= i < data@.len() ==> data@[i] == old(data)@[i],
    {
        proof {
            lemma_lookups(v, cells, ki as int);
            lemma_missing(v, cells, ki as int);
        }
        assert(valid_key(v, layer as int, experts@[ki as int] as int, ne));
        let eidx: i32 = experts[ki] as i32;
        let found: Option<B> = match cache.lookup(layer, eidx, num_experts) {
            Some(b) => Some(*b),
            None => None,
        };
        match found {
            Some(b) => {
                data.set(ki, b);
            },
            None => {
                misses.push(ki);
            },
        }
    }
    proof {
        lemma_lookups(v, cells, n as int);
        lemma_missing(v, cells, n as int);
    }
    let ghost w = after_lookups(v, cells, n as int);
    let ghost slots = misses@;
    let count: usize = misses.len();
    for m in 0..count
        invariant
            n == experts@.len(),
            n <= data@.len(),
            ne == num_experts,
            count == misses@.len(),
            count <= n,
            misses@ == slots,
            slots == missing(v, cells, n as int),
            v.wf(),
            w.wf(),
            w == after_lookups(v, cells, n as int),
            w.buffers == v.buffers,
            w.index.span == v.index.span,
            w.index.capacity() == v.index.capacity(),
            w.index.clock + count == v.index.clock + n,
            cells == cells_of(layer as int, experts@, ne),
            fetch_ready(v, layer as int, experts@, ne),
            forall|a: int|
                0 <= a < slots.len() ==> (#[trigger] slots[a]) < n && !v.index.holds(
                    cells[slots[a] as int],
                ),
            forall|a: int, b: int|
                0 <= a < b < slots.len() ==> #[trigger] slots[a] < #[trigger] slots[b],
            cache.wf(ne),
            cache.view_for(ne) == after_inserts(w, cells, slots, m as int),
            cache.view_for(ne).buffers == v.buffers,
            cache.view_for(ne).index.span == v.index.span,
            cache.view_for(ne).index.capacity() == v.index.capacity(),
            cache.view_for(ne).index.clock == w.index.clock + m,
            data@.len() == old(data)@.len(),
            forall|i: int|
                0 <= i < n && v.index.holds(#[trigger] cells[i]) ==> data@[i]
                    == v.buffers[v.index.slot_of(cells[i])],
            forall|a: int|
                0 <= a < m ==> data@[#[trigger] slots[a] as int] == v.buffers[after_inserts(
                    w,
                    cells,
                    slots,
                    a + 1,
                ).index.slot_of(cells[slots[a] as int])],
            forall|i: int| n <= i < data@.len() ==> data@[i] == old(data)@[i],
    {
        let ki: usize = misses[m];
        let ghost before = cache.view_for(ne);
        proof {
            lemma_cache_view_wf(*cache, ne);
            assert(slots[m as int] == ki);
            assert(valid_key(v, layer as int, experts@[ki as int] as int, ne));
            assert(cells[ki as int] == cell_of(layer as int, experts@[ki as int] as int, ne));
            assert(0 <= layer * ne) by (nonlinear_arith)
                requires
                    0 <= layer,
                    0 <= ne,
            ;
        }
        let eidx: i32 = experts[ki] as i32;
        let b: B = *cache.insert(layer, eidx, num_experts);
        proof {
            let after = cache.view_for(ne);
            lemma_inserted(before, after, cells[ki as int]);
            law_insert_caches(before, after, cells[ki as int]);
        }
        data.set(ki, b);
    }
    misses
}

/// Slots that were used after a given tick.
spec fn used_since(v: LruView, tick: int) -> Set<int> {
    Set::new(|i: int| 0 <= i < v.capacity() && v.last_used[i] > tick)
}

/// A slot holds a cell and was used after a given tick.
spec fn kept_at(v: LruView, slot: int, cell: int, tick: int) -> bool {
    v.is_slot(slot, cell) && v.last_used[slot] > tick
}

/// No slot is pinned.
pub open spec fn unpinned(v: LruView) -> bool {
    forall|i: int| 0 <= i < v.capacity() ==> !#[trigger] v.pinned[i]
}

/// Using a slot adds at most that slot to those used since.
proof fn lemma_used_since(v: LruView, w: LruView, slot: int, tick: int)
    requires
        0 <= slot < v.capacity(),
        v.last_used.len() == v.cells.len(),
        w.capacity() == v.capacity(),
        w.last_used == v.last_used.update(slot, v.clock + 1),
        used_since(v, tick).finite(),
    ensures
        used_since(w, tick).finite(),
        used_since(w, tick).len() <= used_since(v, tick).len() + 1,
{
    let a = used_since(v, tick);
    let b = used_since(w, tick);
    assert(b.subset_of(a.insert(slot)));
    vstd::set_lib::lemma_len_subset(b, a.insert(slot));
}

/// While fewer slots were used since than there are, one was not.
proof fn lemma_some_unused(v: LruView, tick: int) -> (j: int)
    requires
        used_since(v, tick).finite(),
        used_since(v, tick).len() < v.capacity(),
    ensures
        0 <= j < v.capacity(),
        v.last_used[j] <= tick,
{
    let all = vstd::set_lib::set_int_range(0, v.capacity());
    vstd::set_lib::lemma_int_range(0, v.capacity());
    if all.subset_of(used_since(v, tick)) {
        vstd::set_lib::lemma_len_subset(all, used_since(v, tick));
    }
    choose|j: int| all.contains(j) && !used_since(v, tick).contains(j)
}

/// Inserting keeps what was used since, as long as not every slot was.
proof fn lemma_insert_keeps<B>(u: ExpertCacheView<B>, cell: int, tick: int)
    requires
        u.wf(),
        unpinned(u.index),
        0 < u.index.capacity(),
        0 <= cell < u.index.span,
        tick <= u.index.clock,
        used_since(u.index, tick).finite(),
        used_since(u.index, tick).len() < u.index.capacity(),
    ensures
        ({
            let w = after_insert(u, cell);
            &&& w.wf()
            &&& unpinned(w.index)
            &&& w.index.capacity() == u.index.capacity()
            &&& w.index.span == u.index.span
            &&& w.index.clock == u.index.clock + 1
            &&& w.buffers == u.buffers
            &&& used_since(w.index, tick).finite()
            &&& used_since(w.index, tick).len() <= used_since(u.index, tick).len() + 1
            &&& kept_at(w.index, w.index.slot_of(cell), cell, tick)
            &&& forall|s: int, c: int|
                kept_at(u.index, s, c, tick) ==> #[trigger] kept_at(w.index, s, c, tick)
        }),
{
    let w = after_insert(u, cell);
    lemma_victim_exists(u.index);
    assert(inserted(u, w, cell));
    law_insert_caches(u, w, cell);
    let s = w.index.slot_of(cell);
    assert(w.index.is_slot(s, cell));
    if u.index.holds(cell) {
        let t = u.index.slot_of(cell);
        assert(u.index.is_slot(t, cell));
        lemma_used_since(u.index, w.index, t, tick);
        assert(w.index.is_slot(t, cell));
        lemma_slot_of(w.index, t, cell);
    } else {
        let t = choose|t: int| u.index.is_victim(t);
        assert(0 <= t < u.index.capacity());
        lemma_used_since(u.index, w.index, t, tick);
        assert(w.index.is_slot(t, cell));
        lemma_slot_of(w.index, t, cell);
        let j = lemma_some_unused(u.index, tick);
        assert(!u.index.pinned[j]);
        assert forall|a: int, c: int| kept_at(u.index, a, c, tick) implies #[trigger] kept_at(
            w.index,
            a,
            c,
            tick,
        ) by {
            assert(a != t);
        }
    }
}

/// After lookups the cached cells among them are kept.
proof fn lemma_lookups_keep<B>(v: ExpertCacheView<B>, cells: Seq<int>, n: int)
    requires
        v.wf(),
        0 <= n <= cells.len(),
    ensures
        ({
            let w = after_lookups(v, cells, n);
            let tick = v.index.clock;
            &&& used_since(w.index, tick).finite()
            &&& used_since(w.index, tick).len() + missing(v, cells, n).len() <= n
            &&& forall|i: int|
                0 <= i < n && v.index.holds(#[trigger] cells[i]) ==> kept_at(
                    w.index,
                    v.index.slot_of(cells[i]),
                    cells[i],
                    tick,
                )
        }),
    decreases n,
{
    let tick = v.index.clock;
    if n <= 0 {
        assert(used_since(v.index, tick) =~= Set::<int>::empty()) by {
            assert forall|i: int| 0 <= i < v.index.capacity() implies v.index.last_used[i] <= tick by {
                if i >= v.index.used {
                    assert(v.index.last_used[i] == 0);
                }
            }
        }
    } else {
        lemma_lookups_keep(v, cells, n - 1);
        lemma_lookups(v, cells, n - 1);
        let u = after_lookups(v, cells, n - 1);
        let w = after_lookups(v, cells, n);
        if v.index.holds(cells[n - 1]) {
            let s = v.index.slot_of(cells[n - 1]);
            assert(v.index.is_slot(s, cells[n - 1]));
            lemma_used_since(u.index, w.index, s, tick);
            assert forall|i: int| 0 <= i < n && v.index.holds(#[trigger] cells[i]) implies kept_at(
                w.index,
                v.index.slot_of(cells[i]),
                cells[i],
                tick,
            ) by {
                if i < n - 1 {
                    assert(kept_at(u.index, v.index.slot_of(cells[i]), cells[i], tick));
                }
            }
        }
    }
}

/// During the insertions nothing that was fetched is lost.
proof fn lemma_inserts_keep<B>(v: ExpertCacheView<B>, cells: Seq<int>, m: int)
    requires
        v.wf(),
        unpinned(v.index),
        0 < v.index.capacity(),
        cells.len() <= v.index.capacity(),
        cells.len() <= usize::MAX,
        forall|i: int| 0 <= i < cells.len() ==> 0 <= #[trigger] cells[i] < v.index.span,
        0 <= m <= missing(v, cells, cells.len() as int).len(),
    ensures
        ({
            let n = cells.len() as int;
            let slots = missing(v, cells, n);
            let start = after_lookups(v, cells, n);
            let w = after_inserts(start, cells, slots, m);
            let tick = v.index.clock;
            &&& w.wf()
            &&& unpinned(w.index)
            &&& w.buffers == v.buffers
            &&& w.index.capacity() == v.index.capacity()
            &&& w.index.span == v.index.span
            &&& tick <= w.index.clock
            &&& used_since(w.index, tick).finite()
            &&& used_since(w.index, tick).len() + slots.len() <= n + m
            &&& forall|i: int|
                0 <= i < n && v.index.holds(#[trigger] cells[i]) ==> kept_at(
                    w.index,
                    v.index.slot_of(cells[i]),
                    cells[i],
                    tick,
                )
            &&& forall|a: int|
                0 <= a < m ==> kept_at(
                    w.index,
                    after_inserts(start, cells, slots, a + 1).index.slot_of(
                        cells[#[trigger] slots[a] as int],
                    ),
                    cells[slots[a] as int],
                    tick,
                )
        }),
    decreases m,
{
    let n = cells.len() as int;
    let slots = missing(v, cells, n);
    let start = after_lookups(v, cells, n);
    let tick = v.index.clock;
    lemma_lookups(v, cells, n);
    lemma_missing(v, cells, n);
    if m <= 0 {
        lemma_lookups_keep(v, cells, n);
    } else {
        lemma_inserts_keep(v, cells, m - 1);
        let u = after_inserts(start, cells, slots, m - 1);
        let w = after_inserts(start, cells, slots, m);
        let cell = cells[slots[m - 1] as int];
        lemma_insert_keeps(u, cell, tick);
        assert forall|i: int| 0 <= i < n && v.index.holds(#[trigger] cells[i]) implies kept_at(
            w.index,
            v.index.slot_of(cells[i]),
            cells[i],
            tick,
        ) by {
            assert(kept_at(u.index, v.index.slot_of(cells[i]), cells[i], tick));
        }
        assert forall|a: int| 0 <= a < m implies kept_at(
            w.index,
            after_inserts(start, cells, slots, a + 1).index.slot_of(
                cells[#[trigger] slots[a] as int],
            ),
            cells[slots[a] as int],
            tick,
        ) by {
            if a < m - 1 {
                assert(kept_at(
                    u.index,
                    after_inserts(start, cells, slots, a + 1).index.slot_of(
                        cells[slots[a] as int],
                    ),
                    cells[slots[a] as int],
                    tick,
                ));
            }
        }
    }
}

/// With at least as many entries as experts are fetched, and none of them pinned, a fetch
/// evicts no expert that it fetches: each of them is cached afterwards, in the buffer that it
/// was given, and two different experts have different entries.
pub proof fn law_fetch_keeps_all<B>(
    v: ExpertCacheView<B>,
    cells: Seq<int>,
    old_data: Seq<B>,
    data: Seq<B>,
)
    requires
        v.wf(),
        unpinned(v.index),
        cells.len() <= v.index.capacity(),
        cells.len() <= usize::MAX,
        forall|i: int| 0 <= i < cells.len() ==> 0 <= #[trigger] cells[i] < v.index.span,
        fetched_data(v, cells, old_data, data),
    ensures
        forall|i: int|
            0 <= i < cells.len() ==> after_fetch(v, cells).index.holds(#[trigger] cells[i])
                && data[i] == after_fetch(v, cells).buffers[after_fetch(v, cells).index.slot_of(
                cells[i],
            )],
        forall|i: int, j: int|
            0 <= i < cells.len() && 0 <= j < cells.len() && #[trigger] cells[i]
                != #[trigger] cells[j] ==> after_fetch(v, cells).index.slot_of(cells[i])
                != after_fetch(v, cells).index.slot_of(cells[j]),
{
    let n = cells.len() as int;
    let slots = missing(v, cells, n);
    let start = after_lookups(v, cells, n);
    let w = after_fetch(v, cells);
    let tick = v.index.clock;
    if n > 0 {
        lemma_missing(v, cells, n);
        lemma_inserts_keep(v, cells, slots.len() as int);
        assert forall|i: int| 0 <= i < n implies w.index.holds(#[trigger] cells[i]) && data[i]
            == w.buffers[w.index.slot_of(cells[i])] by {
            if v.index.holds(cells[i]) {
                let s = v.index.slot_of(cells[i]);
                assert(kept_at(w.index, s, cells[i], tick));
                lemma_slot_of(w.index, s, cells[i]);
            } else {
                assert(slots.contains(i as usize));
                let a = choose|a: int| 0 <= a < slots.len() && slots[a] == i as usize;
                let s = after_inserts(start, cells, slots, a + 1).index.slot_of(
                    cells[slots[a] as int],
                );
                assert(kept_at(w.index, s, cells[i], tick));
                lemma_slot_of(w.index, s, cells[i]);
            }
        }
        assert forall|i: int, j: int|
            0 <= i < n && 0 <= j < n && #[trigger] cells[i] != #[trigger] cells[j] implies w.index.slot_of(
            cells[i],
        ) != w.index.slot_of(cells[j]) by {
            assert(w.index.is_slot(w.index.slot_of(cells[i]), cells[i]));
            assert(w.index.is_slot(w.index.slot_of(cells[j]), cells[j]));
        }
    }
}

/// What a fetch has to read: the places, in order and each once, of the experts that the cache
/// does not hold. The others are hits, and each place is counted as one or the other.
pub proof fn law_missing_places<B>(v: ExpertCacheView<B>, cells: Seq<int>, n: int)
    requires
        0 <= n <= cells.len(),
        n <= usize::MAX,
    ensures
        ({
            let m = missing(v, cells, n);
            let w = after_lookups(v, cells, n);
            &&& forall|a: int, b: int| 0 <= a < b < m.len() ==> #[trigger] m[a] < #[trigger] m[b]
            &&& forall|a: int|
                0 <= a < m.len() ==> (#[trigger] m[a]) < n && !v.index.holds(cells[m[a] as int])
            &&& forall|i: int|
                0 <= i < n && !v.index.holds(#[trigger] cells[i]) ==> m.contains(i as usize)
            &&& w.misses == v.misses + m.len()
            &&& w.hits == v.hits + (n - m.len())
        }),
    decreases n,
{
    if n > 0 {
        law_missing_places(v, cells, n - 1);
        let m = missing(v, cells, n);
        let before = missing(v, cells, n - 1);
        assert forall|i: int| 0 <= i < n && !v.index.holds(#[trigger] cells[i]) implies m.contains(
            i as usize,
        ) by {
            if i < n - 1 {
                assert(before.contains(i as usize));
                let a = choose|a: int| 0 <= a < before.len() && before[a] == i as usize;
                assert(m[a] == i as usize);
            } else {
                assert(m[m.len() - 1] == i as usize);
            }
        }
    }
}

} // verus!
