//! Selection of the `k` highest router scores with a bounded min-heap.

use vstd::prelude::*;

use crate::float_bits::{f32_lt, float_lt, is_nan, order_key};

verus! {

/// The heap: the selected scores and, beside each, the position it came from.
pub struct HeapView {
    pub values: Seq<u32>,
    pub indices: Seq<usize>,
}

pub open spec fn parent(pos: int) -> int {
    (pos - 1) / 2
}

impl HeapView {
    pub open spec fn put(self, pos: int, value: u32, index: usize) -> HeapView {
        HeapView {
            values: self.values.update(pos, value),
            indices: self.indices.update(pos, index),
        }
    }

    pub open spec fn swap(self, a: int, b: int) -> HeapView {
        self.put(a, self.values[b], self.indices[b]).put(b, self.values[a], self.indices[a])
    }

    /// A new entry moves up from `pos` past every larger parent.
    pub open spec fn sift_up(self, pos: int, value: u32, index: usize) -> HeapView
        decreases pos,
    {
        if pos > 0 && float_lt(value, self.values[parent(pos)]) {
            self.put(pos, self.values[parent(pos)], self.indices[parent(pos)]).sift_up(
                parent(pos),
                value,
                index,
            )
        } else {
            self.put(pos, value, index)
        }
    }

    /// The position of the least of the entry at `pos` and its children below `k`; the entry
    /// itself wins ties, then the left child.
    pub open spec fn smallest(self, pos: int, k: int) -> int {
        let left = 2 * pos + 1;
        let right = 2 * pos + 2;
        let first = if left < k && float_lt(self.values[left], self.values[pos]) {
            left
        } else {
            pos
        };
        if right < k && float_lt(self.values[right], self.values[first]) {
            right
        } else {
            first
        }
    }

    /// The entry at `pos` moves down past every smaller child.
    pub open spec fn sift_down(self, pos: int, k: int) -> HeapView
        decreases k - pos,
    {
        let c = self.smallest(pos, k);
        if c <= pos {
            self
        } else {
            self.swap(pos, c).sift_down(c, k)
        }
    }

    /// One more score: the first `k` fill the heap, a later one replaces the least entry if
    /// it is higher.
    pub open spec fn step(self, k: int, score: u32, i: int) -> HeapView {
        if i < k {
            self.sift_up(i, score, i as usize)
        } else if float_lt(self.values[0], score) {
            self.put(0, score, i as usize).sift_down(0, k)
        } else {
            self
        }
    }

    /// All scores in order.
    pub open spec fn select(self, k: int, scores: Seq<u32>) -> HeapView
        decreases scores.len(),
    {
        if scores.len() == 0 {
            self
        } else {
            self.select(k, scores.drop_last()).step(k, scores.last(), scores.len() - 1)
        }
    }
}

/// Number of slots that selecting from `n` scores touches.
pub open spec fn slots_needed(n: int, k: int) -> int {
    if n == 0 {
        0
    } else if k >= n {
        n
    } else if k == 0 {
        1
    } else {
        k
    }
}

proof fn lemma_sift_up_len(h: HeapView, pos: int, value: u32, index: usize)
    requires
        0 <= pos < h.values.len(),
        pos < h.indices.len(),
    ensures
        h.sift_up(pos, value, index).values.len() == h.values.len(),
        h.sift_up(pos, value, index).indices.len() == h.indices.len(),
    decreases pos,
{
    if pos > 0 && float_lt(value, h.values[parent(pos)]) {
        let g = h.put(pos, h.values[parent(pos)], h.indices[parent(pos)]);
        lemma_sift_up_len(g, parent(pos), value, index);
    }
}

/// Move a new entry up from `pos`.
fn sift_up(values: &mut [u32], indices: &mut [usize], start: usize, score: u32, i: usize)
    requires
        start < old(values)@.len(),
        start < old(indices)@.len(),
    ensures
        (HeapView { values: final(values)@, indices: final(indices)@ }) == (HeapView {
            values: old(values)@,
            indices: old(indices)@,
        }).sift_up(start as int, score, i),
{
    let ghost target = (HeapView { values: values@, indices: indices@ }).sift_up(
        start as int,
        score,
        i,
    );
    let mut pos: usize = start;
    while pos > 0 && f32_lt(score, values[(pos - 1) / 2])
        invariant
            pos < values@.len(),
            pos < indices@.len(),
            (HeapView { values: values@, indices: indices@ }).sift_up(pos as int, score, i)
                == target,
        decreases pos,
    {
        let up: usize = (pos - 1) / 2;
        let v: u32 = values[up];
        let ix: usize = indices[up];
        values[pos] = v;
        indices[pos] = ix;
        pos = up;
    }
    values[pos] = score;
    indices[pos] = i;
}

/// Move the entry at the root down.
fn sift_down(values: &mut [u32], indices: &mut [usize], k: usize)
    requires
        0 < old(values)@.len(),
        0 < old(indices)@.len(),
        k <= old(values)@.len(),
        k <= old(indices)@.len(),
    ensures
        (HeapView { values: final(values)@, indices: final(indices)@ }) == (HeapView {
            values: old(values)@,
            indices: old(indices)@,
        }).sift_down(0, k as int),
        final(values)@.len() == old(values)@.len(),
        final(indices)@.len() == old(indices)@.len(),
{
    let ghost target = (HeapView { values: values@, indices: indices@ }).sift_down(0, k as int);
    let ghost nv = values@.len();
    let ghost ni = indices@.len();
    let mut pos: usize = 0;
    loop
        invariant
            values@.len() == nv,
            indices@.len() == ni,
            pos < nv,
            pos < ni,
            k <= nv,
            k <= ni,
            pos == 0 || pos < k,
            (HeapView { values: values@, indices: indices@ }).sift_down(pos as int, k as int)
                == target,
        ensures
            values@.len() == nv,
            indices@.len() == ni,
            (HeapView { values: values@, indices: indices@ }) == target,
        decreases k - pos,
    {
        let ghost h = HeapView { values: values@, indices: indices@ };
        let mut smallest: usize = pos;
        if pos < k {
            let room: usize = k - pos;
            // `left = 2 * pos + 1` and `right = 2 * pos + 2`, compared without overflow.
            if pos < room && pos + 1 < room {
                let left: usize = 2 * pos + 1;
                if f32_lt(values[left], values[smallest]) {
                    smallest = left;
                }
                if pos + 2 < room {
                    let right: usize = 2 * pos + 2;
                    if f32_lt(values[right], values[smallest]) {
                        smallest = right;
                    }
                }
            }
        }
        assert(smallest == h.smallest(pos as int, k as int));
        if smallest == pos {
            break;
        }
        let va: u32 = values[pos];
        let vb: u32 = values[smallest];
        let ia: usize = indices[pos];
        let ib: usize = indices[smallest];
        values[pos] = vb;
        values[smallest] = va;
        indices[pos] = ib;
        indices[smallest] = ia;
        assert((HeapView { values: values@, indices: indices@ }) == h.swap(
            pos as int,
            smallest as int,
        ));
        pos = smallest;
    }
}

/// Select the `k` highest scores. `scores` holds single-precision bit patterns; on return
/// `values` holds the selected ones in heap order and `indices` their positions.
pub fn topk(scores: &[u32], k: usize, indices: &mut [usize], values: &mut [u32])
    requires
        slots_needed(scores@.len() as int, k as int) <= old(values)@.len(),
        slots_needed(scores@.len() as int, k as int) <= old(indices)@.len(),
    ensures
        (HeapView { values: final(values)@, indices: final(indices)@ }) == (HeapView {
            values: old(values)@,
            indices: old(indices)@,
        }).select(k as int, scores@),
        final(values)@.len() == old(values)@.len(),
        final(indices)@.len() == old(indices)@.len(),
{
    let ghost start = HeapView { values: values@, indices: indices@ };
    let n: usize = scores.len();
    for i in 0..n
        invariant
            n == scores@.len(),
            values@.len() == start.values.len(),
            indices@.len() == start.indices.len(),
            slots_needed(n as int, k as int) <= values@.len(),
            slots_needed(n as int, k as int) <= indices@.len(),
            (HeapView { values: values@, indices: indices@ }) == start.select(
                k as int,
                scores@.take(i as int),
            ),
    {
        let score: u32 = scores[i];
        proof {
            let next = scores@.take(i + 1);
            assert(next.drop_last() =~= scores@.take(i as int));
            assert(next.last() == score);
        }
        if i < k {
            proof {
                lemma_sift_up_len(
                    HeapView { values: values@, indices: indices@ },
                    i as int,
                    score,
                    i,
                );
            }
            sift_up(values, indices, i, score, i);
        } else if f32_lt(values[0], score) {
            values[0] = score;
            indices[0] = i;
            sift_down(values, indices, k);
        }
    }
    proof {
        assert(scores@.take(n as int) =~= scores@);
    }
}

/// A position outside the heap, for "no hole".
pub open spec fn no_hole() -> int {
    -1
}

/// No entry of the first `n` is NaN.
pub open spec fn nan_free(values: Seq<u32>, n: int) -> bool {
    forall|j: int| 0 <= j < n ==> !is_nan(#[trigger] values[j])
}

/// The first `n` entries are a min-heap.
pub open spec fn is_heap(h: HeapView, n: int) -> bool {
    forall|j: int|
        0 < j < n ==> order_key(h.values[parent(j)]) <= order_key(#[trigger] h.values[j])
}

/// Each of the first `n` entries but the one at `hole` is a score with its position, and no
/// position below `count` occurs twice.
pub open spec fn entries_match(h: HeapView, n: int, hole: int, scores: Seq<u32>, count: int) -> bool {
    &&& forall|j: int|
        0 <= j < n && j != hole ==> 0 <= #[trigger] h.indices[j] < count && h.values[j]
            == scores[h.indices[j] as int]
    &&& forall|a: int, b: int|
        0 <= a < n && 0 <= b < n && a != b && a != hole && b != hole ==> #[trigger] h.indices[a]
            != #[trigger] h.indices[b]
}

/// Position `m` is among the first `n` entries, the one at `hole` left out.
pub open spec fn selected(h: HeapView, n: int, hole: int, m: int) -> bool {
    exists|j: int| 0 <= j < n && j != hole && #[trigger] h.indices[j] == m
}

/// Every entry but the one at `hole` is in order with its parent, and a value at `hole`
/// that is at most `value` would be in order with the children.
spec fn up_ready(h: HeapView, pos: int, n: int, value: u32) -> bool {
    &&& forall|j: int|
        0 < j < n && j != pos && parent(j) != pos ==> order_key(h.values[parent(j)]) <= order_key(
            #[trigger] h.values[j],
        )
    &&& forall|j: int|
        0 < j < n && parent(j) == pos ==> order_key(value) <= order_key(#[trigger] h.values[j])
    &&& pos > 0 ==> forall|j: int|
        0 < j < n && parent(j) == pos ==> order_key(h.values[parent(pos)]) <= order_key(
            #[trigger] h.values[j],
        )
}

proof fn lemma_sift_up(
    h: HeapView,
    pos: int,
    n: int,
    value: u32,
    index: usize,
    scores: Seq<u32>,
    count: int,
)
    requires
        0 <= pos < n <= h.values.len(),
        h.indices.len() >= n,
        nan_free(h.values, n),
        !is_nan(value),
        up_ready(h, pos, n, value),
        entries_match(h, n, pos, scores, count),
        count < scores.len(),
        index == count,
        value == scores[count],
        forall|m: int| 0 <= m < count ==> #[trigger] selected(h, n, pos, m),
    ensures
        ({
            let g = h.sift_up(pos, value, index);
            &&& g.values.len() == h.values.len()
            &&& g.indices.len() == h.indices.len()
            &&& nan_free(g.values, n)
            &&& is_heap(g, n)
            &&& entries_match(g, n, no_hole(), scores, count + 1)
            &&& forall|m: int| 0 <= m < count + 1 ==> #[trigger] selected(g, n, no_hole(), m)
        }),
    decreases pos,
{
    lemma_sift_up_len(h, pos, value, index);
    if pos > 0 && float_lt(value, h.values[parent(pos)]) {
        let q = parent(pos);
        let g = h.put(pos, h.values[q], h.indices[q]);
        assert(nan_free(g.values, n));
        assert(up_ready(g, q, n, value)) by {
            assert forall|j: int| 0 < j < n && j != q && parent(j) != q implies order_key(
                g.values[parent(j)],
            ) <= order_key(#[trigger] g.values[j]) by {
                if parent(j) == pos {
                    assert(order_key(h.values[q]) <= order_key(h.values[j]));
                } else {
                    assert(j != pos);
                    assert(order_key(h.values[parent(j)]) <= order_key(h.values[j]));
                }
            }
            assert forall|j: int| 0 < j < n && parent(j) == q implies order_key(value)
                <= order_key(#[trigger] g.values[j]) by {
                if j != pos {
                    assert(order_key(h.values[q]) <= order_key(h.values[j]));
                }
            }
            if q > 0 {
                assert(order_key(h.values[parent(q)]) <= order_key(h.values[q]));
                assert forall|j: int| 0 < j < n && parent(j) == q implies order_key(
                    g.values[parent(q)],
                ) <= order_key(#[trigger] g.values[j]) by {
                    if j != pos {
                        assert(order_key(h.values[q]) <= order_key(h.values[j]));
                    }
                }
            }
        }
        assert(entries_match(g, n, q, scores, count)) by {
            assert forall|a: int, b: int|
                0 <= a < n && 0 <= b < n && a != b && a != q && b
                    != q implies #[trigger] g.indices[a] != #[trigger] g.indices[b] by {
                let a0 = if a == pos {
                    q
                } else {
                    a
                };
                let b0 = if b == pos {
                    q
                } else {
                    b
                };
                assert(h.indices[a0] != h.indices[b0]);
            }
            assert forall|j: int| 0 <= j < n && j != q implies 0 <= #[trigger] g.indices[j] < count
                && g.values[j] == scores[g.indices[j] as int] by {
                let j0 = if j == pos {
                    q
                } else {
                    j
                };
                assert(0 <= h.indices[j0] < count);
            }
        }
        assert forall|m: int| 0 <= m < count implies selected(g, n, q, m) by {
            assert(selected(h, n, pos, m));
            let j = choose|j: int| 0 <= j < n && j != pos && #[trigger] h.indices[j] == m;
            let j1 = if j == q {
                pos
            } else {
                j
            };
            assert(g.indices[j1] == m);
        }
        lemma_sift_up(g, q, n, value, index, scores, count);
    } else {
        let g = h.put(pos, value, index);
        assert forall|j: int| 0 < j < n implies order_key(g.values[parent(j)]) <= order_key(
            #[trigger] g.values[j],
        ) by {
            if j == pos {
            } else if parent(j) == pos {
                assert(order_key(value) <= order_key(h.values[j]));
            } else {
                assert(order_key(h.values[parent(j)]) <= order_key(h.values[j]));
            }
        }
        assert forall|a: int, b: int| 0 <= a < n && 0 <= b < n && a != b implies
            #[trigger] g.indices[a] != #[trigger] g.indices[b] by {
            if a == pos {
                assert(h.indices[b] < count);
            } else if b == pos {
                assert(h.indices[a] < count);
            } else {
                assert(h.indices[a] != h.indices[b]);
            }
        }
        assert forall|j: int| 0 <= j < n implies 0 <= #[trigger] g.indices[j] < count + 1
            && g.values[j] == scores[g.indices[j] as int] by {
            if j != pos {
                assert(h.indices[j] < count);
            }
        }
        assert forall|m: int| 0 <= m < count + 1 implies selected(g, n, no_hole(), m) by {
            if m == count {
                assert(g.indices[pos] == m);
            } else {
                assert(selected(h, n, pos, m));
                let j = choose|j: int| 0 <= j < n && j != pos && #[trigger] h.indices[j] == m;
                assert(g.indices[j] == m);
            }
        }
    }
}

/// The heap is in order but for the entry at `pos`, whose children are in order with its
/// parent.
spec fn down_ready(h: HeapView, pos: int, k: int) -> bool {
    &&& forall|j: int|
        0 < j < k && parent(j) != pos ==> order_key(h.values[parent(j)]) <= order_key(
            #[trigger] h.values[j],
        )
    &&& pos > 0 ==> forall|j: int|
        0 < j < k && parent(j) == pos ==> order_key(h.values[parent(pos)]) <= order_key(
            #[trigger] h.values[j],
        )
}

proof fn lemma_sift_down(h: HeapView, pos: int, k: int, scores: Seq<u32>, count: int)
    requires
        0 <= pos < k <= h.values.len(),
        k <= h.indices.len(),
        nan_free(h.values, k),
        down_ready(h, pos, k),
        entries_match(h, k, no_hole(), scores, count),
    ensures
        ({
            let g = h.sift_down(pos, k);
            &&& g.values.len() == h.values.len()
            &&& g.indices.len() == h.indices.len()
            &&& nan_free(g.values, k)
            &&& is_heap(g, k)
            &&& entries_match(g, k, no_hole(), scores, count)
            &&& forall|m: int| #[trigger] selected(g, k, no_hole(), m) <==> selected(h, k, no_hole(), m)
        }),
    decreases k - pos,
{
    let c = h.smallest(pos, k);
    let left = 2 * pos + 1;
    let right = 2 * pos + 2;
    if c <= pos {
        assert forall|j: int| 0 < j < k implies order_key(h.values[parent(j)]) <= order_key(
            #[trigger] h.values[j],
        ) by {
            if parent(j) == pos {
                assert(j == left || j == right);
                assert(!is_nan(h.values[j]) && !is_nan(h.values[pos]));
            }
        }
    } else {
        assert(c == left || c == right);
        assert(parent(c) == pos);
        assert(!is_nan(h.values[pos]) && !is_nan(h.values[c]));
        let g = h.swap(pos, c);
        assert forall|j: int| 0 <= j < k implies !is_nan(#[trigger] g.values[j]) by {
            assert(!is_nan(h.values[j]));
        }
        assert(down_ready(g, c, k)) by {
            assert forall|j: int| 0 < j < k && parent(j) != c implies order_key(
                g.values[parent(j)],
            ) <= order_key(#[trigger] g.values[j]) by {
                if j == c {
                } else if parent(j) == pos {
                    assert(j == left || j == right);
                    assert(!is_nan(h.values[j]));
                } else if j == pos {
                    assert(order_key(h.values[parent(pos)]) <= order_key(h.values[c]));
                } else {
                    assert(order_key(h.values[parent(j)]) <= order_key(h.values[j]));
                }
            }
            assert forall|j: int| 0 < j < k && parent(j) == c implies order_key(
                g.values[parent(c)],
            ) <= order_key(#[trigger] g.values[j]) by {
                assert(order_key(h.values[parent(j)]) <= order_key(h.values[j]));
            }
        }
        assert(entries_match(g, k, no_hole(), scores, count)) by {
            assert forall|j: int| 0 <= j < k implies 0 <= #[trigger] g.indices[j] < count
                && g.values[j] == scores[g.indices[j] as int] by {
                let j0 = if j == pos {
                    c
                } else if j == c {
                    pos
                } else {
                    j
                };
                assert(0 <= h.indices[j0] < count);
            }
            assert forall|a: int, b: int| 0 <= a < k && 0 <= b < k && a != b implies
                #[trigger] g.indices[a] != #[trigger] g.indices[b] by {
                let a0 = if a == pos {
                    c
                } else if a == c {
                    pos
                } else {
                    a
                };
                let b0 = if b == pos {
                    c
                } else if b == c {
                    pos
                } else {
                    b
                };
                assert(h.indices[a0] != h.indices[b0]);
            }
        }
        lemma_sift_down(g, c, k, scores, count);
        assert forall|m: int| #[trigger] selected(g, k, no_hole(), m) <==> selected(h, k, no_hole(), m) by {
            if selected(g, k, no_hole(), m) {
                let j = choose|j: int| 0 <= j < k && j != no_hole() && #[trigger] g.indices[j] == m;
                let j0 = if j == pos {
                    c
                } else if j == c {
                    pos
                } else {
                    j
                };
                assert(h.indices[j0] == m);
            }
            if selected(h, k, no_hole(), m) {
                let j = choose|j: int| 0 <= j < k && j != no_hole() && #[trigger] h.indices[j] == m;
                let j0 = if j == pos {
                    c
                } else if j == c {
                    pos
                } else {
                    j
                };
                assert(g.indices[j0] == m);
            }
        }
        assert forall|m: int|
            #[trigger] selected(h.sift_down(pos, k), k, no_hole(), m) <==> selected(h, k, no_hole(), m) by {
            assert(selected(g, k, no_hole(), m) <==> selected(h, k, no_hole(), m));
        }
    }
}

proof fn lemma_root_least(h: HeapView, k: int, j: int)
    requires
        0 <= j < k,
        is_heap(h, k),
    ensures
        order_key(h.values[0]) <= order_key(h.values[j]),
    decreases j,
{
    if j > 0 {
        lemma_root_least(h, k, parent(j));
    }
}

/// Number of slots in use after `count` scores.
pub open spec fn slots_in_use(k: int, count: int) -> int {
    if count < k {
        count
    } else {
        k
    }
}

/// What holds of the heap, with `n` slots in use, after the first `count` scores.
pub open spec fn heap_selects(h: HeapView, n: int, scores: Seq<u32>, count: int) -> bool {
    &&& nan_free(h.values, n)
    &&& is_heap(h, n)
    &&& entries_match(h, n, no_hole(), scores, count)
    &&& forall|m: int, j: int|
        0 <= m < count && 0 <= j < n && !selected(h, n, no_hole(), m) ==> order_key(
            #[trigger] scores[m],
        ) <= order_key(#[trigger] h.values[j])
    &&& n == count ==> forall|m: int| 0 <= m < count ==> #[trigger] selected(h, n, no_hole(), m)
}

proof fn lemma_step_fills(g: HeapView, k: int, scores: Seq<u32>, i: int)
    requires
        0 <= i < k <= g.values.len(),
        k <= g.indices.len(),
        i < scores.len() <= usize::MAX,
        !is_nan(scores[i]),
        heap_selects(g, i, scores, i),
    ensures
        ({
            let r = g.step(k, scores[i], i);
            &&& r.values.len() == g.values.len()
            &&& r.indices.len() == g.indices.len()
            &&& heap_selects(r, i + 1, scores, i + 1)
        }),
{
    let count = i + 1;
    let score = scores[i];
    // The entry at `i` is the hole; whatever it holds is overwritten.
    let f = g.put(i, score, i as usize);
    assert(nan_free(f.values, count));
    lemma_hole_ignored(g, i, score, i as usize, score, i as usize);
    assert(up_ready(f, i, count, score)) by {
        assert forall|j: int| 0 < j < count && j != i && parent(j) != i implies order_key(
            f.values[parent(j)],
        ) <= order_key(#[trigger] f.values[j]) by {
            assert(order_key(g.values[parent(j)]) <= order_key(g.values[j]));
        }
        assert forall|j: int| 0 < j < count implies parent(j) != i by {}
    }
    assert(entries_match(f, count, i, scores, i)) by {
        assert forall|j: int| 0 <= j < count && j != i implies 0 <= #[trigger] f.indices[j] < i
            && f.values[j] == scores[f.indices[j] as int] by {
            assert(0 <= g.indices[j] < i);
        }
        assert forall|a: int, b: int|
            0 <= a < count && 0 <= b < count && a != b && a != i && b
                != i implies #[trigger] f.indices[a] != #[trigger] f.indices[b] by {
            assert(g.indices[a] != g.indices[b]);
        }
    }
    assert forall|m: int| 0 <= m < i implies #[trigger] selected(f, count, i, m) by {
        assert(selected(g, i, no_hole(), m));
        let j = choose|j: int| 0 <= j < i && j != no_hole() && #[trigger] g.indices[j] == m;
        assert(f.indices[j] == m);
    }
    lemma_sift_up(f, i, count, score, i as usize, scores, i);
}

proof fn lemma_step_replaces(g: HeapView, k: int, scores: Seq<u32>, i: int)
    requires
        0 < k <= i < scores.len() <= usize::MAX,
        k <= g.values.len(),
        k <= g.indices.len(),
        !is_nan(scores[i]),
        heap_selects(g, k, scores, i),
        float_lt(g.values[0], scores[i]),
    ensures
        ({
            let r = g.step(k, scores[i], i);
            &&& r.values.len() == g.values.len()
            &&& r.indices.len() == g.indices.len()
            &&& heap_selects(r, k, scores, i + 1)
        }),
{
    let count = i + 1;
    let score = scores[i];
    let r = g.step(k, score, i);
    let f = g.put(0, score, i as usize);
    assert forall|j: int| 0 <= j < k implies !is_nan(#[trigger] f.values[j]) by {
        assert(!is_nan(g.values[j]));
    }
    assert(down_ready(f, 0, k)) by {
        assert forall|j: int| 0 < j < k && parent(j) != 0 implies order_key(f.values[parent(j)])
            <= order_key(#[trigger] f.values[j]) by {
            assert(order_key(g.values[parent(j)]) <= order_key(g.values[j]));
        }
    }
    assert(entries_match(f, k, no_hole(), scores, count)) by {
        assert forall|j: int| 0 <= j < k implies 0 <= #[trigger] f.indices[j] < count
            && f.values[j] == scores[f.indices[j] as int] by {
            assert(0 <= g.indices[j] < i);
        }
        assert forall|a: int, b: int| 0 <= a < k && 0 <= b < k && a != b implies
            #[trigger] f.indices[a] != #[trigger] f.indices[b] by {
            assert(g.indices[a] != g.indices[b]);
            assert(g.indices[a] < i && g.indices[b] < i);
        }
    }
    lemma_sift_down(f, 0, k, scores, count);
    // Every value left in the heap is at least the old root, and so is the new score.
    assert(0 <= r.indices[0] < count);
    assert(selected(r, k, no_hole(), r.indices[0] as int));
    assert(selected(f, k, no_hole(), r.indices[0] as int));
    let l = choose|l: int|
        0 <= l < k && l != no_hole() && #[trigger] f.indices[l] == r.indices[0] as int;
    assert(f.values[l] == r.values[0]);
    lemma_root_least(g, k, l);
    assert(order_key(g.values[0]) <= order_key(r.values[0]));
    assert forall|m: int, j: int|
        0 <= m < count && 0 <= j < k && !selected(r, k, no_hole(), m) implies order_key(
        #[trigger] scores[m],
    ) <= order_key(#[trigger] r.values[j]) by {
        assert(!selected(f, k, no_hole(), m));
        assert(f.indices[0] == i);
        assert(m != i);
        lemma_root_least(r, k, j);
        if selected(g, k, no_hole(), m) {
            let p = choose|p: int| 0 <= p < k && p != no_hole() && #[trigger] g.indices[p] == m;
            if p != 0 {
                assert(f.indices[p] == m);
            }
            assert(scores[m] == g.values[0]);
        } else {
            assert(order_key(scores[m]) <= order_key(g.values[0]));
        }
    }
}

proof fn lemma_step_keeps(g: HeapView, k: int, scores: Seq<u32>, i: int)
    requires
        0 < k <= i < scores.len(),
        !is_nan(scores[i]),
        heap_selects(g, k, scores, i),
        !float_lt(g.values[0], scores[i]),
    ensures
        heap_selects(g, k, scores, i + 1),
{
    let count = i + 1;
    assert(entries_match(g, k, no_hole(), scores, count)) by {
        assert forall|j: int| 0 <= j < k implies 0 <= #[trigger] g.indices[j] < count
            && g.values[j] == scores[g.indices[j] as int] by {
            assert(0 <= g.indices[j] < i);
        }
    }
    assert forall|m: int, j: int|
        0 <= m < count && 0 <= j < k && !selected(g, k, no_hole(), m) implies order_key(
        #[trigger] scores[m],
    ) <= order_key(#[trigger] g.values[j]) by {
        if m == i {
            assert(!is_nan(g.values[0]));
            lemma_root_least(g, k, j);
        }
    }
}

proof fn lemma_select(h: HeapView, k: int, scores: Seq<u32>, count: int)
    requires
        0 < k <= h.values.len(),
        k <= h.indices.len(),
        nan_free(scores, scores.len() as int),
        0 <= count <= scores.len(),
        scores.len() <= usize::MAX,
    ensures
        ({
            let g = h.select(k, scores.take(count));
            &&& g.values.len() == h.values.len()
            &&& g.indices.len() == h.indices.len()
            &&& heap_selects(g, slots_in_use(k, count), scores, count)
        }),
    decreases count,
{
    let t = scores.take(count);
    if count > 0 {
        let i = count - 1;
        lemma_select(h, k, scores, i);
        assert(t.drop_last() =~= scores.take(i));
        assert(t.last() == scores[i]);
        let g = h.select(k, scores.take(i));
        assert(!is_nan(scores[i]));
        if i < k {
            lemma_step_fills(g, k, scores, i);
        } else if float_lt(g.values[0], scores[i]) {
            lemma_step_replaces(g, k, scores, i);
        } else {
            lemma_step_keeps(g, k, scores, i);
        }
    } else {
        assert(t =~= Seq::<u32>::empty());
    }
}

/// What the entry at `pos` held does not matter to a new entry that starts there.
proof fn lemma_hole_ignored(
    h: HeapView,
    pos: int,
    value: u32,
    index: usize,
    junk_value: u32,
    junk_index: usize,
)
    requires
        0 <= pos < h.values.len(),
        pos < h.indices.len(),
    ensures
        h.put(pos, junk_value, junk_index).sift_up(pos, value, index) == h.sift_up(
            pos,
            value,
            index,
        ),
{
    let f = h.put(pos, junk_value, junk_index);
    if pos > 0 && float_lt(value, h.values[parent(pos)]) {
        let q = parent(pos);
        assert(f.put(pos, f.values[q], f.indices[q]).values =~= h.put(
            pos,
            h.values[q],
            h.indices[q],
        ).values);
        assert(f.put(pos, f.values[q], f.indices[q]).indices =~= h.put(
            pos,
            h.values[q],
            h.indices[q],
        ).indices);
    } else {
        assert(f.put(pos, value, index).values =~= h.put(pos, value, index).values);
        assert(f.put(pos, value, index).indices =~= h.put(pos, value, index).indices);
    }
}

/// The selection is a selection of the highest: of at least `k` scores without NaN, the `k`
/// slots hold scores with their own, distinct positions, and no score left out is higher
/// than any of them. The first slot holds the least of them.
pub proof fn law_topk_selects_highest(start: HeapView, k: int, scores: Seq<u32>)
    requires
        0 < k <= scores.len() <= usize::MAX,
        k <= start.values.len(),
        k <= start.indices.len(),
        nan_free(scores, scores.len() as int),
    ensures
        ({
            let h = start.select(k, scores);
            &&& forall|j: int|
                0 <= j < k ==> 0 <= #[trigger] h.indices[j] < scores.len() && h.values[j]
                    == scores[h.indices[j] as int]
            &&& forall|a: int, b: int|
                0 <= a < b < k ==> #[trigger] h.indices[a] != #[trigger] h.indices[b]
            &&& forall|m: int, j: int|
                0 <= m < scores.len() && 0 <= j < k && !selected(h, k, no_hole(), m) ==> order_key(
                    #[trigger] scores[m],
                ) <= order_key(#[trigger] h.values[j])
            &&& forall|j: int|
                0 <= j < k ==> order_key(h.values[0]) <= order_key(#[trigger] h.values[j])
        }),
{
    let n = scores.len() as int;
    assert(scores.take(n) =~= scores);
    lemma_select(start, k, scores, n);
    let h = start.select(k, scores);
    assert forall|j: int| 0 <= j < k implies order_key(h.values[0]) <= order_key(
        #[trigger] h.values[j],
    ) by {
        lemma_root_least(h, k, j);
    }
}

/// All positions are below `n`.
pub open spec fn positions_below(h: HeapView, n: int) -> bool {
    forall|j: int| 0 <= j < h.indices.len() ==> #[trigger] h.indices[j] < n
}

proof fn lemma_sift_up_below(h: HeapView, pos: int, value: u32, index: usize, n: int)
    requires
        0 <= pos < h.values.len(),
        pos < h.indices.len(),
        positions_below(h, n),
        index < n,
    ensures
        positions_below(h.sift_up(pos, value, index), n),
    decreases pos,
{
    if pos > 0 && float_lt(value, h.values[parent(pos)]) {
        let g = h.put(pos, h.values[parent(pos)], h.indices[parent(pos)]);
        lemma_sift_up_below(g, parent(pos), value, index, n);
    }
}

proof fn lemma_sift_down_below(h: HeapView, pos: int, k: int, n: int)
    requires
        0 <= pos < h.values.len(),
        pos < h.indices.len(),
        k <= h.values.len(),
        k <= h.indices.len(),
        positions_below(h, n),
    ensures
        positions_below(h.sift_down(pos, k), n),
        h.sift_down(pos, k).values.len() == h.values.len(),
        h.sift_down(pos, k).indices.len() == h.indices.len(),
    decreases k - pos,
{
    let c = h.smallest(pos, k);
    if c > pos {
        lemma_sift_down_below(h.swap(pos, c), c, k, n);
    }
}

/// Whatever the scores are, the selected positions are positions of scores.
pub proof fn law_topk_in_range(start: HeapView, k: int, scores: Seq<u32>, n: int)
    requires
        0 < k <= start.values.len(),
        k <= start.indices.len(),
        scores.len() <= n <= usize::MAX,
        positions_below(start, n),
    ensures
        positions_below(start.select(k, scores), n),
        start.select(k, scores).values.len() == start.values.len(),
        start.select(k, scores).indices.len() == start.indices.len(),
    decreases scores.len(),
{
    if scores.len() > 0 {
        let i = scores.len() - 1;
        law_topk_in_range(start, k, scores.drop_last(), n);
        let h = start.select(k, scores.drop_last());
        if i < k {
            lemma_sift_up_len(h, i, scores.last(), i as usize);
            lemma_sift_up_below(h, i, scores.last(), i as usize, n);
        } else if float_lt(h.values[0], scores.last()) {
            lemma_sift_down_below(h.put(0, scores.last(), i as usize), 0, k, n);
        }
    }
}

/// Of equal scores the earlier one is kept: once `k` entries are there, a score that is not higher
/// than the least of them changes nothing; a higher one takes the place of the least.
pub proof fn law_equal_scores_keep_first(h: HeapView, k: int, score: u32, i: int)
    requires
        0 < k <= i,
        k <= h.values.len(),
        k <= h.indices.len(),
    ensures
        order_key(score) <= order_key(h.values[0]) ==> h.step(k, score, i) == h,
        is_nan(score) ==> h.step(k, score, i) == h,
        !is_nan(score) && !is_nan(h.values[0]) && order_key(h.values[0]) < order_key(score)
            ==> h.step(k, score, i) == (HeapView {
            values: h.values.update(0, score),
            indices: h.indices.update(0, i as usize),
        }).sift_down(0, k),
{
}

/// An entry stays where it is unless order asks for a move: a new one does not rise past an equal
/// parent, and one does not sink past equal children; of two equal smaller children the left one
/// rises.
pub proof fn law_equal_entries_stay(h: HeapView, pos: int, k: int, value: u32, index: usize)
    requires
        0 <= pos < k,
        k <= h.values.len(),
        k <= h.indices.len(),
    ensures
        ({
            let key = |j: int| order_key(h.values[j]);
            let (l, r) = (2 * pos + 1, 2 * pos + 2);
            &&& pos == 0 || key((pos - 1) / 2) <= order_key(value) ==> h.sift_up(pos, value, index)
                == (HeapView {
                values: h.values.update(pos, value),
                indices: h.indices.update(pos, index),
            })
            &&& (l < k ==> key(pos) <= key(l)) && (r < k ==> key(pos) <= key(r)) ==> h.sift_down(
                pos,
                k,
            ) == h
            &&& r < k && key(l) == key(r) && key(l) < key(pos) && !is_nan(h.values[l]) && !is_nan(
                h.values[pos],
            ) ==> h.smallest(pos, k) == l
        }),
{
}

} // verus!
