//! Decisions of the command line tool: options, synthetic routing, and the comparison of two
//! results.

use vstd::prelude::*;

use crate::float_bits::{abs_bits, f32_abs, f32_lt, float_lt, is_nan};
use crate::sample::{is_less, less};
use crate::scalar::{zero, zero_of, Scalar};

verus! {

/// Bit pattern of 1e-6: below this magnitude differences are not taken relative.
pub const RELATIVE_ABOVE_BITS: u32 = 0x3586_37BD;

/// Bit pattern of 0.01: relative differences below this pass.
pub const PASS_BELOW_BITS: u32 = 0x3C23_D70A;

/// The number of experts to run, kept between 1 and `max`.
pub fn clamp_experts(k: usize, max: usize) -> (r: usize)
    requires
        1 <= max,
    ensures
        1 <= r <= max,
        1 <= k <= max ==> r == k,
        k < 1 ==> r == 1,
        max < k ==> r == max,
{
    if k < 1 {
        1
    } else if k > max {
        max
    } else {
        k
    }
}

/// The speed level of the command line's choice of shader.
pub fn speed_level(fast: bool) -> (r: i32)
    ensures
        r == (if fast {
            3i32
        } else {
            0i32
        }),
{
    if fast {
        3
    } else {
        0
    }
}

/// The name of the shader of a speed level.
pub fn shader_name(use_fast: i32) -> (r: &'static str)
    ensures
        r@ == (if use_fast >= 3 {
            "v3-tiled"@
        } else if use_fast >= 1 {
            "fast-simd"@
        } else {
            "naive"@
        }),
{
    if use_fast >= 3 {
        "v3-tiled"
    } else if use_fast >= 1 {
        "fast-simd"
    } else {
        "naive"
    }
}

/// Experts that are spread evenly over all of them.
pub fn spread_experts(k: usize, num_experts: usize) -> (r: Vec<usize>)
    requires
        0 < k,
        0 < num_experts,
    ensures
        r@ == Seq::new(
            k as nat,
            |ki: int| ((ki * (num_experts as int / k as int)) % num_experts as int) as usize,
        ),
        forall|i: int| 0 <= i < k ==> #[trigger] r@[i] < num_experts,
{
    let step: usize = num_experts / k;
    proof {
        vstd::arithmetic::div_mod::lemma_fundamental_div_mod(num_experts as int, k as int);
        vstd::arithmetic::div_mod::lemma_mod_bound(num_experts as int, k as int);
    }
    let mut r: Vec<usize> = Vec::new();
    for ki in 0..k
        invariant
            0 < num_experts,
            step == num_experts as int / k as int,
            k * step <= num_experts,
            r@ == Seq::new(
                ki as nat,
                |ki: int| ((ki * (num_experts as int / k as int)) % num_experts as int) as usize,
            ),
            forall|i: int| 0 <= i < ki ==> #[trigger] r@[i] < num_experts,
    {
        assert(0 <= ki * step <= k * step) by (nonlinear_arith)
            requires
                0 <= ki <= k,
                0 <= step,
        ;
        r.push((ki * step) % num_experts);
    }
    r
}

/// The magnitude of a number.
pub open spec fn abs_value<S: Scalar>(x: S) -> S {
    S::s_of_bits(abs_bits(x.s_bits()))
}

fn absolute<S: Scalar>(x: &S) -> (r: S)
    ensures
        r == abs_value(*x),
{
    S::of_bits(f32_abs(x.bits()))
}

/// How far two results are apart.
pub struct Difference<S> {
    pub max_diff: S,
    pub max_rel_diff: S,
    /// Where the largest difference is.
    pub worst_idx: usize,
}

/// The difference of two numbers, relative to the second unless that is almost zero.
pub open spec fn relative_diff<S: Scalar>(got: S, want: S) -> S {
    let diff = abs_value(got.s_minus(want));
    if float_lt(RELATIVE_ABOVE_BITS, abs_value(want).s_bits()) {
        diff.s_over(abs_value(want))
    } else {
        diff
    }
}

/// How far the first `n` numbers of two results are apart.
pub open spec fn difference_upto<S: Scalar>(got: Seq<S>, want: Seq<S>, n: int) -> Difference<S>
    decreases n,
{
    if n <= 0 {
        Difference { max_diff: zero(), max_rel_diff: zero(), worst_idx: 0 }
    } else {
        let d = difference_upto(got, want, n - 1);
        let diff = abs_value(got[n - 1].s_minus(want[n - 1]));
        let rel = relative_diff(got[n - 1], want[n - 1]);
        Difference {
            max_diff: if less(d.max_diff, diff) {
                diff
            } else {
                d.max_diff
            },
            max_rel_diff: if less(d.max_rel_diff, rel) {
                rel
            } else {
                d.max_rel_diff
            },
            worst_idx: if less(d.max_diff, diff) {
                (n - 1) as usize
            } else {
                d.worst_idx
            },
        }
    }
}

/// Compare two results.
pub fn compare_outputs<S: Scalar>(got: &[S], want: &[S], n: usize) -> (r: Difference<S>)
    requires
        n <= got@.len(),
        n <= want@.len(),
    ensures
        r == difference_upto(got@, want@, n as int),
{
    let mut d: Difference<S> = Difference {
        max_diff: zero_of(),
        max_rel_diff: zero_of(),
        worst_idx: 0,
    };
    for i in 0..n
        invariant
            n <= got@.len(),
            n <= want@.len(),
            d == difference_upto(got@, want@, i as int),
    {
        let diff: S = absolute(&got[i].minus(&want[i]));
        let size: S = absolute(&want[i]);
        let rel: S = if f32_lt(RELATIVE_ABOVE_BITS, size.bits()) {
            diff.over(&size)
        } else {
            diff.dup()
        };
        let larger = is_less(&d.max_diff, &diff);
        let larger_rel = is_less(&d.max_rel_diff, &rel);
        if larger {
            d.max_diff = diff;
            d.worst_idx = i;
        }
        if larger_rel {
            d.max_rel_diff = rel;
        }
    }
    d
}

/// Whether two results are close enough.
pub fn passes<S: Scalar>(d: &Difference<S>) -> (r: bool)
    ensures
        r == less(d.max_rel_diff, S::s_of_bits(PASS_BELOW_BITS)),
{
    is_less(&d.max_rel_diff, &S::of_bits(PASS_BELOW_BITS))
}

/// The magnitude of a number has its bit pattern without the sign.
pub proof fn law_magnitude<S: Scalar>(x: S)
    ensures
        abs_value(x) == S::s_of_bits((x.s_bits() % 0x8000_0000) as u32),
{
}

/// What a comparison of two results finds: no difference is larger than the largest, which is the
/// difference at the worst place, the first one of that size; and no relative difference is
/// larger than the largest relative one, which is that of some place. Nothing is found where
/// nothing differs.
pub proof fn law_comparison<S: Scalar>(got: Seq<S>, want: Seq<S>, n: int, i: int)
    requires
        0 <= n <= usize::MAX,
        !is_nan(zero::<S>().s_bits()),
        0 <= i < n,
    ensures
        ({
            let d = difference_upto(got, want, n);
            let w = d.worst_idx as int;
            let diff = |j: int| abs_value(got[j].s_minus(want[j]));
            let rel = |j: int|
                if float_lt(0x3586_37BD, abs_value(want[j]).s_bits()) {
                    diff(j).s_over(abs_value(want[j]))
                } else {
                    diff(j)
                };
            &&& !less(d.max_diff, diff(i))
            &&& !less(d.max_rel_diff, rel(i))
            &&& w < n
            &&& (d.max_diff == diff(w) && less(zero(), diff(w))) || (d.max_diff == zero::<S>() && w
                == 0)
            &&& i < w ==> less(diff(i), diff(w)) || is_nan(diff(i).s_bits())
            &&& d.max_rel_diff == zero::<S>() || exists|j: int|
                0 <= j < n && d.max_rel_diff == #[trigger] relative_diff(got[j], want[j])
        }),
    decreases n,
{
    let d = difference_upto(got, want, n);
    let b = difference_upto(got, want, n - 1);
    let last = abs_value(got[n - 1].s_minus(want[n - 1]));
    let rel = relative_diff(got[n - 1], want[n - 1]);
    lemma_not_nan(got, want, n - 1);
    if n == 1 {
        assert(b.max_diff == zero::<S>() && b.max_rel_diff == zero::<S>() && b.worst_idx == 0);
    } else {
        let j = if i < n - 1 {
            i
        } else {
            0
        };
        law_comparison(got, want, n - 1, j);
        if b.max_rel_diff != zero::<S>() {
            let k = choose|k: int|
                0 <= k < n - 1 && b.max_rel_diff == #[trigger] relative_diff(got[k], want[k]);
            assert(relative_diff(got[k], want[k]) == b.max_rel_diff);
        }
    }
    assert(relative_diff(got[n - 1], want[n - 1]) == rel);
}

proof fn lemma_not_nan<S: Scalar>(got: Seq<S>, want: Seq<S>, n: int)
    requires
        !is_nan(zero::<S>().s_bits()),
    ensures
        !is_nan(difference_upto(got, want, n).max_diff.s_bits()),
        !is_nan(difference_upto(got, want, n).max_rel_diff.s_bits()),
    decreases n,
{
    if n > 0 {
        lemma_not_nan(got, want, n - 1);
    }
}

} // verus!
