//! Sorting of single-precision bit patterns, largest number first.

use vstd::prelude::*;
use vstd::seq_lib::{group_to_multiset_ensures, lemma_multiset_commutative};

use crate::float_bits::{is_negative, magnitude, order_key};

verus! {

/// An integer that orders all patterns: those that are numbers as the numbers, with the
/// negative zero below the positive one.
pub open spec fn rank(bits: u32) -> int {
    if is_negative(bits) {
        -magnitude(bits) - 1
    } else {
        magnitude(bits)
    }
}

/// Different patterns have different ranks, and a larger number has the larger rank.
pub proof fn law_rank_orders(a: u32, b: u32)
    ensures
        rank(a) == rank(b) ==> a == b,
        order_key(a) < order_key(b) ==> rank(a) < rank(b),
{
}

/// Whether `a` ranks below `b`.
fn ranks_below(a: u32, b: u32) -> (r: bool)
    ensures
        r == (rank(a) < rank(b)),
{
    if a >= 0x8000_0000 {
        b < 0x8000_0000 || b < a
    } else {
        b < 0x8000_0000 && a < b
    }
}

/// Each pattern ranks at least as high as those behind it.
pub open spec fn descending(s: Seq<u32>) -> bool {
    forall|i: int, j: int| 0 <= i < j < s.len() ==> rank(#[trigger] s[i]) >= rank(#[trigger] s[j])
}

/// A descending sequence with one more pattern in its place.
pub open spec fn insert_desc(s: Seq<u32>, x: u32) -> Seq<u32>
    decreases s.len(),
{
    if s.len() == 0 {
        seq![x]
    } else if rank(x) >= rank(s[0]) {
        seq![x] + s
    } else {
        seq![s[0]] + insert_desc(s.drop_first(), x)
    }
}

/// The patterns in descending order.
pub open spec fn sorted_desc(s: Seq<u32>) -> Seq<u32>
    decreases s.len(),
{
    if s.len() == 0 {
        s
    } else {
        insert_desc(sorted_desc(s.drop_first()), s[0])
    }
}

/// No pattern ranks above `y`.
spec fn bounds(y: int, s: Seq<u32>) -> bool {
    forall|i: int| 0 <= i < s.len() ==> y >= rank(#[trigger] s[i])
}

proof fn lemma_insert_desc(s: Seq<u32>, x: u32)
    requires
        descending(s),
    ensures
        descending(insert_desc(s, x)),
        insert_desc(s, x).to_multiset() == s.to_multiset().insert(x),
        insert_desc(s, x).len() == s.len() + 1,
        forall|y: int|
            bounds(y, s) && y >= rank(x) ==> #[trigger] bounds(y, insert_desc(s, x)),
    decreases s.len(),
{
    broadcast use group_to_multiset_ensures;

    let r = insert_desc(s, x);
    if s.len() == 0 {
        assert(r =~= s.push(x));
    } else if rank(x) >= rank(s[0]) {
        lemma_multiset_commutative(seq![x], s);
        assert(seq![x] =~= Seq::<u32>::empty().push(x));
        assert(r.to_multiset() =~= s.to_multiset().insert(x));
        assert forall|i: int, j: int| 0 <= i < j < r.len() implies rank(#[trigger] r[i]) >= rank(
            #[trigger] r[j],
        ) by {
            assert(r[j] == s[j - 1]);
            if i > 0 {
                assert(r[i] == s[i - 1]);
            } else if j > 1 {
                assert(rank(s[0]) >= rank(s[j - 1]));
            }
        }
    } else {
        let t = s.drop_first();
        assert(descending(t)) by {
            assert forall|i: int, j: int| 0 <= i < j < t.len() implies rank(#[trigger] t[i])
                >= rank(#[trigger] t[j]) by {
                assert(t[i] == s[i + 1]);
                assert(t[j] == s[j + 1]);
            }
        }
        lemma_insert_desc(t, x);
        let u = insert_desc(t, x);
        assert(s =~= seq![s[0]] + t);
        lemma_multiset_commutative(seq![s[0]], t);
        lemma_multiset_commutative(seq![s[0]], u);
        assert(r.to_multiset() =~= s.to_multiset().insert(x));
        let y0 = rank(s[0]);
        assert(bounds(y0, t)) by {
            assert forall|i: int| 0 <= i < t.len() implies y0 >= rank(#[trigger] t[i]) by {
                assert(t[i] == s[i + 1]);
            }
        }
        assert(bounds(y0, u));
        assert forall|i: int, j: int| 0 <= i < j < r.len() implies rank(#[trigger] r[i]) >= rank(
            #[trigger] r[j],
        ) by {
            assert(r[j] == u[j - 1]);
            if i > 0 {
                assert(r[i] == u[i - 1]);
            }
        }
    }
    assert forall|y: int| bounds(y, s) && y >= rank(x) implies #[trigger] bounds(y, r) by {
        assert forall|i: int| 0 <= i < r.len() implies y >= rank(#[trigger] r[i]) by {
            assert(r.contains(r[i]));
            assert(r.to_multiset().count(r[i]) > 0);
            if r[i] != x {
                assert(s.to_multiset().count(r[i]) > 0);
                assert(s.contains(r[i]));
            }
        }
    }
}

/// Sorting gives a descending sequence of the same patterns.
pub proof fn law_sorted_desc(s: Seq<u32>)
    ensures
        descending(sorted_desc(s)),
        sorted_desc(s).to_multiset() == s.to_multiset(),
        sorted_desc(s).len() == s.len(),
    decreases s.len(),
{
    broadcast use group_to_multiset_ensures;

    if s.len() > 0 {
        let t = s.drop_first();
        law_sorted_desc(t);
        lemma_insert_desc(sorted_desc(t), s[0]);
        assert(s =~= seq![s[0]] + t);
        lemma_multiset_commutative(seq![s[0]], t);
        assert(seq![s[0]] =~= Seq::<u32>::empty().push(s[0]));
        assert(s.to_multiset() =~= t.to_multiset().insert(s[0]));
    }
}

/// Descending sequences of the same patterns are equal.
proof fn lemma_descending_unique(a: Seq<u32>, b: Seq<u32>)
    requires
        descending(a),
        descending(b),
        a.to_multiset() == b.to_multiset(),
    ensures
        a == b,
    decreases a.len(),
{
    broadcast use group_to_multiset_ensures;

    assert(a.len() == a.to_multiset().len());
    assert(b.len() == b.to_multiset().len());
    if a.len() > 0 {
        assert(a.contains(a[0]));
        assert(b.to_multiset().count(a[0]) > 0);
        assert(b.contains(a[0]));
        let i = choose|i: int| 0 <= i < b.len() && b[i] == a[0];
        assert(b.contains(b[0]));
        assert(a.to_multiset().count(b[0]) > 0);
        assert(a.contains(b[0]));
        let j = choose|j: int| 0 <= j < a.len() && a[j] == b[0];
        if i > 0 {
            assert(rank(b[0]) >= rank(b[i]));
        }
        if j > 0 {
            assert(rank(a[0]) >= rank(a[j]));
        }
        law_rank_orders(a[0], b[0]);
        assert(a[0] == b[0]);
        let a1 = a.drop_first();
        let b1 = b.drop_first();
        assert(a =~= seq![a[0]] + a1);
        assert(b =~= seq![b[0]] + b1);
        lemma_multiset_commutative(seq![a[0]], a1);
        lemma_multiset_commutative(seq![b[0]], b1);
        assert(seq![a[0]] =~= Seq::<u32>::empty().push(a[0]));
        assert(a1.to_multiset() =~= a.to_multiset().remove(a[0]));
        assert(b1.to_multiset() =~= b.to_multiset().remove(a[0]));
        assert(descending(a1)) by {
            assert forall|i: int, j: int| 0 <= i < j < a1.len() implies rank(#[trigger] a1[i])
                >= rank(#[trigger] a1[j]) by {
                assert(a1[i] == a[i + 1]);
                assert(a1[j] == a[j + 1]);
            }
        }
        assert(descending(b1)) by {
            assert forall|i: int, j: int| 0 <= i < j < b1.len() implies rank(#[trigger] b1[i])
                >= rank(#[trigger] b1[j]) by {
                assert(b1[i] == b[i + 1]);
                assert(b1[j] == b[j + 1]);
            }
        }
        lemma_descending_unique(a1, b1);
    } else {
        assert(a =~= b);
    }
}

/// Merge two descending sequences.
fn merge(a: &Vec<u32>, b: &Vec<u32>) -> (r: Vec<u32>)
    requires
        descending(a@),
        descending(b@),
    ensures
        descending(r@),
        r@.to_multiset() == a@.to_multiset().add(b@.to_multiset()),
{
    let mut r: Vec<u32> = Vec::new();
    let mut i: usize = 0;
    let mut j: usize = 0;
    proof {
        broadcast use group_to_multiset_ensures;

        assert(a@.take(0) =~= Seq::<u32>::empty());
        assert(b@.take(0) =~= Seq::<u32>::empty());
        assert(r@.to_multiset() =~= a@.take(0).to_multiset().add(b@.take(0).to_multiset()));
    }
    while i < a.len() || j < b.len()
        invariant
            descending(a@),
            descending(b@),
            i <= a@.len(),
            j <= b@.len(),
            descending(r@),
            r@.to_multiset() == a@.take(i as int).to_multiset().add(
                b@.take(j as int).to_multiset(),
            ),
            forall|p: int, q: int|
                0 <= p < r@.len() && i <= q < a@.len() ==> rank(#[trigger] r@[p]) >= rank(
                    #[trigger] a@[q],
                ),
            forall|p: int, q: int|
                0 <= p < r@.len() && j <= q < b@.len() ==> rank(#[trigger] r@[p]) >= rank(
                    #[trigger] b@[q],
                ),
        decreases a@.len() - i + b@.len() - j,
    {
        let from_a = if i >= a.len() {
            false
        } else if j >= b.len() {
            true
        } else {
            !ranks_below(a[i], b[j])
        };
        let ghost r0 = r@;
        let x: u32 = if from_a {
            a[i]
        } else {
            b[j]
        };
        r.push(x);
        proof {
            broadcast use group_to_multiset_ensures;

            if from_a {
                assert(a@.take(i + 1) =~= a@.take(i as int).push(a@[i as int]));
                assert(r@.to_multiset() =~= a@.take(i + 1).to_multiset().add(
                    b@.take(j as int).to_multiset(),
                ));
                if j < b@.len() {
                    assert forall|q: int| j <= q < b@.len() implies rank(x) >= rank(
                        #[trigger] b@[q],
                    ) by {
                        if q > j {
                            assert(rank(b@[j as int]) >= rank(b@[q]));
                        }
                    }
                }
            } else {
                assert(b@.take(j + 1) =~= b@.take(j as int).push(b@[j as int]));
                assert(r@.to_multiset() =~= a@.take(i as int).to_multiset().add(
                    b@.take(j + 1).to_multiset(),
                ));
                if i < a@.len() {
                    assert forall|q: int| i <= q < a@.len() implies rank(x) >= rank(
                        #[trigger] a@[q],
                    ) by {
                        if q > i {
                            assert(rank(a@[i as int]) >= rank(a@[q]));
                        }
                    }
                }
            }
            assert forall|p: int, q: int| 0 <= p < q < r@.len() implies rank(#[trigger] r@[p])
                >= rank(#[trigger] r@[q]) by {
                if q == r0.len() {
                    assert(r@[p] == r0[p]);
                    if from_a {
                        assert(rank(r0[p]) >= rank(a@[i as int]));
                    } else {
                        assert(rank(r0[p]) >= rank(b@[j as int]));
                    }
                } else {
                    assert(r@[p] == r0[p] && r@[q] == r0[q]);
                }
            }
        }
        if from_a {
            i = i + 1;
        } else {
            j = j + 1;
        }
    }
    proof {
        assert(a@.take(i as int) =~= a@);
        assert(b@.take(j as int) =~= b@);
    }
    r
}

fn merge_sort(v: &[u32]) -> (r: Vec<u32>)
    ensures
        descending(r@),
        r@.to_multiset() == v@.to_multiset(),
    decreases v@.len(),
{
    let n: usize = v.len();
    if n <= 1 {
        let mut r: Vec<u32> = Vec::new();
        if n == 1 {
            r.push(v[0]);
        }
        assert(r@ =~= v@);
        return r;
    }
    let mid: usize = n / 2;
    let left = vstd::slice::slice_subrange(v, 0, mid);
    let right = vstd::slice::slice_subrange(v, mid, n);
    let a = merge_sort(left);
    let b = merge_sort(right);
    proof {
        assert(v@ =~= left@ + right@);
        lemma_multiset_commutative(left@, right@);
    }
    merge(&a, &b)
}

/// Sort patterns, largest number first.
pub fn sort_desc(v: &[u32]) -> (r: Vec<u32>)
    ensures
        r@ == sorted_desc(v@),
{
    let r = merge_sort(v);
    proof {
        law_sorted_desc(v@);
        lemma_descending_unique(r@, sorted_desc(v@));
    }
    r
}

} // verus!
