//! Choice of the next token from logits.

use vstd::prelude::*;

use crate::float_bits::{
    abs_bits, f32_abs, f32_le, f32_lt, float_le, float_lt, is_nan, order_key,
};
use crate::math_util::{law_sum, softmax, softmax_of, sum_upto};
use crate::scalar::{one, one_of, zero, zero_of, Scalar};
use crate::sort::{
    descending, insert_desc, law_rank_orders, law_sorted_desc, rank, sort_desc, sorted_desc,
};
use crate::sums::{lemma_take_all, lemma_total_step, total};

verus! {

/// Bit pattern of 1e-7: temperatures this close to 1 are not applied.
pub const TEMPERATURE_SLACK_BITS: u32 = 0x33D6_BF95;

/// Bit pattern of 1e-8, the least divisor.
pub const LEAST_TEMPERATURE_BITS: u32 = 0x322B_CC77;

/// Bit pattern of 0.01: below this temperature the highest logit wins.
pub const GREEDY_BELOW_BITS: u32 = 0x3C23_D70A;

/// Bit pattern of 2^-24.
pub const UNIFORM_STEP_BITS: u32 = 0x3380_0000;

/// `a < b`.
pub open spec fn less<S: Scalar>(a: S, b: S) -> bool {
    float_lt(a.s_bits(), b.s_bits())
}

/// `a <= b`.
pub open spec fn at_most<S: Scalar>(a: S, b: S) -> bool {
    float_le(a.s_bits(), b.s_bits())
}

pub(crate) fn is_less<S: Scalar>(a: &S, b: &S) -> (r: bool)
    ensures
        r == less(*a, *b),
{
    f32_lt(a.bits(), b.bits())
}

fn is_at_most<S: Scalar>(a: &S, b: &S) -> (r: bool)
    ensures
        r == at_most(*a, *b),
{
    f32_le(a.bits(), b.bits())
}

/// The place of the highest of the first `n` numbers; the last one if several are equal.
pub open spec fn argmax_upto<S: Scalar>(x: Seq<S>, n: int) -> int
    decreases n,
{
    if n <= 1 {
        0
    } else {
        let best = argmax_upto(x, n - 1);
        if at_most(x[best], x[n - 1]) {
            n - 1
        } else {
            best
        }
    }
}

proof fn lemma_argmax_range<S: Scalar>(x: Seq<S>, n: int)
    requires
        1 <= n,
    ensures
        0 <= argmax_upto(x, n) < n,
    decreases n,
{
    if n > 1 {
        lemma_argmax_range(x, n - 1);
    }
}

/// No number is higher than the one at the place that is chosen, as long as all of them can
/// be compared.
pub proof fn law_argmax_highest<S: Scalar>(x: Seq<S>, n: int, i: int)
    requires
        1 <= n <= x.len(),
        0 <= i < n,
        forall|j: int| 0 <= j < n ==> !crate::float_bits::is_nan((#[trigger] x[j]).s_bits()),
    ensures
        0 <= argmax_upto(x, n) < n,
        at_most(x[i], x[argmax_upto(x, n)]),
        argmax_upto(x, n) < i ==> less(x[i], x[argmax_upto(x, n)]),
    decreases n,
{
    lemma_argmax_range(x, n);
    if n > 1 {
        let best = argmax_upto(x, n - 1);
        lemma_argmax_range(x, n - 1);
        if i < n - 1 {
            law_argmax_highest(x, n - 1, i);
        }
    }
}

/// The place of the highest number; 0 if there is none.
pub fn argmax<S: Scalar>(x: &[S]) -> (r: usize)
    ensures
        r == argmax_upto(x@, x@.len() as int),
        x@.len() > 0 ==> r < x@.len(),
{
    let n: usize = x.len();
    let mut best: usize = 0;
    let mut i: usize = 1;
    while i < n
        invariant
            n == x@.len(),
            1 <= i,
            i <= n || n == 0 && i == 1,
            n > 0 ==> best < n,
            best == argmax_upto(x@, i as int),
        decreases n - i,
    {
        if is_at_most(&x[best], &x[i]) {
            best = i;
        }
        i = i + 1;
    }
    best
}

/// The temperature counts as 1.
pub open spec fn neutral<S: Scalar>(temperature: S) -> bool {
    !float_lt(TEMPERATURE_SLACK_BITS, abs_bits(temperature.s_minus(one()).s_bits()))
}

/// The logits divided by the temperature.
pub open spec fn tempered<S: Scalar>(x: Seq<S>, temperature: S) -> Seq<S> {
    let inv = one::<S>().s_over(temperature.s_max(S::s_of_bits(LEAST_TEMPERATURE_BITS)));
    if neutral(temperature) {
        x
    } else {
        Seq::new(x.len(), |i: int| x[i].s_times(inv))
    }
}

/// The highest logit wins at this temperature.
pub open spec fn greedy<S: Scalar>(temperature: S) -> bool {
    less(temperature, S::s_of_bits(GREEDY_BELOW_BITS))
}

/// Numbers below a threshold are set to zero.
pub open spec fn cut_below<S: Scalar>(x: Seq<S>, threshold: S) -> Seq<S> {
    Seq::new(
        x.len(),
        |i: int|
            if less(x[i], threshold) {
                zero()
            } else {
                x[i]
            },
    )
}

/// The bit patterns of numbers.
pub open spec fn patterns<S: Scalar>(x: Seq<S>) -> Seq<u32> {
    Seq::new(x.len(), |i: int| x[i].s_bits())
}

/// Only the `k` highest numbers are kept, and those equal to the last of them; with `k` 0 or
/// not below their number all are kept.
pub open spec fn top_k_kept<S: Scalar>(x: Seq<S>, k: int) -> Seq<S> {
    if 0 < k < x.len() {
        cut_below(x, S::s_of_bits(sorted_desc(patterns(x))[k - 1]))
    } else {
        x
    }
}

/// The bit patterns of the positive ones among the first `n` numbers.
pub open spec fn positive_upto<S: Scalar>(x: Seq<S>, n: int) -> Seq<u32>
    decreases n,
{
    if n <= 0 {
        Seq::empty()
    } else if less(zero(), x[n - 1]) {
        positive_upto(x, n - 1).push(x[n - 1].s_bits())
    } else {
        positive_upto(x, n - 1)
    }
}

/// The sum of the first `n` numbers with the given patterns.
pub open spec fn pattern_sum<S: Scalar>(s: Seq<u32>, n: int) -> S
    decreases n,
{
    if n <= 0 {
        zero()
    } else {
        pattern_sum::<S>(s, n - 1).s_plus(S::s_of_bits(s[n - 1]))
    }
}

/// The threshold of nucleus sampling: the first number, from the place `i` on, at which the
/// share of the numbers up to there reaches `top_p`; zero if none does.
pub open spec fn nucleus_cut<S: Scalar>(s: Seq<u32>, top_p: S, i: int) -> S
    decreases s.len() - i,
{
    if i < 0 || i >= s.len() {
        zero()
    } else if at_most(
        top_p,
        pattern_sum::<S>(s, i + 1).s_over(pattern_sum(s, s.len() as int)),
    ) {
        S::s_of_bits(s[i])
    } else {
        nucleus_cut(s, top_p, i + 1)
    }
}

/// Only the highest numbers are kept that together make up a share of `top_p`.
pub open spec fn top_p_kept<S: Scalar>(x: Seq<S>, top_p: S) -> Seq<S> {
    if less(top_p, one()) {
        cut_below(
            x,
            nucleus_cut(sorted_desc(positive_upto(x, x.len() as int)), top_p, 0),
        )
    } else {
        x
    }
}

/// The largest of zero and the first `n` numbers.
pub open spec fn peak_upto<S: Scalar>(x: Seq<S>, n: int) -> S
    decreases n,
{
    if n <= 0 {
        zero()
    } else {
        peak_upto(x, n - 1).s_max(x[n - 1])
    }
}

/// Only numbers are kept that are at least `min_p` times the largest.
pub open spec fn min_p_kept<S: Scalar>(x: Seq<S>, min_p: S) -> Seq<S> {
    if less(zero(), min_p) {
        cut_below(x, peak_upto(x, x.len() as int).s_times(min_p))
    } else {
        x
    }
}

/// The probabilities that are drawn from.
pub open spec fn candidates<S: Scalar>(
    logits: Seq<S>,
    temperature: S,
    top_k: int,
    top_p: S,
    min_p: S,
) -> Seq<S> {
    let x = tempered(logits, temperature);
    let x = softmax_of(x, 0, x.len() as int);
    min_p_kept(top_p_kept(top_k_kept(x, top_k), top_p), min_p)
}

/// A number in `[0, 1)` from 32 random bits: the upper 24 of them over 2^24.
pub open spec fn uniform<S: Scalar>(draw: u32) -> S {
    S::s_of_bits(UNIFORM_STEP_BITS).s_times(S::s_of_usize((draw / 256) as usize))
}

/// The sum of the shares of the first `n` numbers.
pub open spec fn share_upto<S: Scalar>(x: Seq<S>, inv: S, n: int) -> S
    decreases n,
{
    if n <= 0 {
        zero()
    } else {
        share_upto(x, inv, n - 1).s_plus(x[n - 1].s_times(inv))
    }
}

/// The first place, from `i` on, at which the shares so far reach `r`; the last place if they
/// never do.
pub open spec fn reached<S: Scalar>(x: Seq<S>, inv: S, r: S, i: int) -> int
    decreases x.len() - i,
{
    if i < 0 || i >= x.len() {
        x.len() - 1
    } else if at_most(r, share_upto(x, inv, i + 1)) {
        i
    } else {
        reached(x, inv, r, i + 1)
    }
}

/// The token that a number in `[0, 1)` picks; 0 if nothing has any probability.
pub open spec fn picked<S: Scalar>(x: Seq<S>, r: S) -> int {
    let sum = sum_upto(x, x.len() as int);
    if at_most(sum, zero()) || x.len() == 0 {
        0
    } else {
        reached(x, one::<S>().s_over(sum), r, 0)
    }
}

/// The token for given logits and 32 random bits.
pub open spec fn sampled<S: Scalar>(
    logits: Seq<S>,
    temperature: S,
    top_k: int,
    top_p: S,
    min_p: S,
    draw: u32,
) -> int {
    if greedy(temperature) {
        argmax_upto(tempered(logits, temperature), logits.len() as int)
    } else {
        picked(candidates(logits, temperature, top_k, top_p, min_p), uniform(draw))
    }
}

/// What the logits become: divided by the temperature, and without greed the probabilities
/// that are drawn from.
pub open spec fn sampled_from<S: Scalar>(
    logits: Seq<S>,
    temperature: S,
    top_k: int,
    top_p: S,
    min_p: S,
) -> Seq<S> {
    if greedy(temperature) {
        tempered(logits, temperature)
    } else {
        candidates(logits, temperature, top_k, top_p, min_p)
    }
}

fn apply_temperature<S: Scalar>(x: &mut [S], temperature: &S)
    ensures
        final(x)@ == tempered(old(x)@, *temperature),
        final(x)@.len() == old(x)@.len(),
{
    let off: S = temperature.minus(&one_of());
    if !f32_lt(TEMPERATURE_SLACK_BITS, f32_abs(off.bits())) {
        return ;
    }
    let inv: S = one_of::<S>().over(&temperature.larger(&S::of_bits(LEAST_TEMPERATURE_BITS)));
    let n: usize = x.len();
    for i in 0..n
        invariant
            n == x@.len(),
            x@.len() == old(x)@.len(),
            forall|j: int| 0 <= j < i ==> x@[j] == old(x)@[j].s_times(inv),
            forall|j: int| i <= j < n ==> x@[j] == old(x)@[j],
    {
        x[i] = x[i].times(&inv);
    }
    assert(x@ =~= tempered(old(x)@, *temperature));
}

fn zero_below<S: Scalar>(x: &mut [S], threshold: &S)
    ensures
        final(x)@ == cut_below(old(x)@, *threshold),
        final(x)@.len() == old(x)@.len(),
{
    let n: usize = x.len();
    for i in 0..n
        invariant
            n == x@.len(),
            x@.len() == old(x)@.len(),
            forall|j: int|
                0 <= j < i ==> x@[j] == (if less(old(x)@[j], *threshold) {
                    zero()
                } else {
                    old(x)@[j]
                }),
            forall|j: int| i <= j < n ==> x@[j] == old(x)@[j],
    {
        if is_less(&x[i], threshold) {
            x[i] = zero_of();
        }
    }
    assert(x@ =~= cut_below(old(x)@, *threshold));
}

fn keep_top_k<S: Scalar>(x: &mut [S], k: usize)
    ensures
        final(x)@ == top_k_kept(old(x)@, k as int),
        final(x)@.len() == old(x)@.len(),
{
    let n: usize = x.len();
    if k == 0 || k >= n {
        return ;
    }
    let mut bits: Vec<u32> = Vec::new();
    for i in 0..n
        invariant
            n == x@.len(),
            bits@ == patterns(x@).take(i as int),
    {
        bits.push(x[i].bits());
        assert(bits@ =~= patterns(x@).take(i + 1));
    }
    assert(bits@ =~= patterns(x@));
    let sorted = sort_desc(bits.as_slice());
    proof {
        law_sorted_desc(patterns(x@));
    }
    let t: S = S::of_bits(sorted[k - 1]);
    zero_below(x, &t);
}

fn keep_top_p<S: Scalar>(x: &mut [S], top_p: &S)
    ensures
        final(x)@ == top_p_kept(old(x)@, *top_p),
        final(x)@.len() == old(x)@.len(),
{
    if !is_less(top_p, &one_of()) {
        return ;
    }
    let n: usize = x.len();
    let z: S = zero_of();
    let mut bits: Vec<u32> = Vec::new();
    for i in 0..n
        invariant
            n == x@.len(),
            z == zero::<S>(),
            bits@ == positive_upto(x@, i as int),
    {
        if is_less(&z, &x[i]) {
            bits.push(x[i].bits());
        }
    }
    let s = sort_desc(bits.as_slice());
    let m: usize = s.len();
    let mut total: S = zero_of();
    for i in 0..m
        invariant
            m == s@.len(),
            total == pattern_sum::<S>(s@, i as int),
    {
        total = total.plus(&S::of_bits(s[i]));
    }
    let mut cum: S = zero_of();
    let mut cut: S = zero_of();
    let mut i: usize = 0;
    let mut found = false;
    while i < m && !found
        invariant
            m == s@.len(),
            i <= m,
            total == pattern_sum::<S>(s@, m as int),
            !found ==> cum == pattern_sum::<S>(s@, i as int) && cut == zero::<S>()
                && nucleus_cut(s@, *top_p, 0) == nucleus_cut(s@, *top_p, i as int),
            found ==> cut == nucleus_cut(s@, *top_p, 0),
        decreases m - i,
    {
        let v: S = S::of_bits(s[i]);
        cum = cum.plus(&v);
        if is_at_most(top_p, &cum.over(&total)) {
            cut = v;
            found = true;
        }
        i = i + 1;
    }
    zero_below(x, &cut);
}

fn keep_min_p<S: Scalar>(x: &mut [S], min_p: &S)
    ensures
        final(x)@ == min_p_kept(old(x)@, *min_p),
        final(x)@.len() == old(x)@.len(),
{
    if !is_less(&zero_of(), min_p) {
        return ;
    }
    let n: usize = x.len();
    let mut peak: S = zero_of();
    for i in 0..n
        invariant
            n == x@.len(),
            peak == peak_upto(x@, i as int),
    {
        peak = peak.larger(&x[i]);
    }
    let t: S = peak.times(min_p);
    zero_below(x, &t);
}

/// The token that a number in `[0, 1)` picks from probabilities that need not sum to one.
pub fn pick<S: Scalar>(x: &[S], r: &S) -> (t: usize)
    ensures
        t == picked(x@, *r),
        x@.len() > 0 ==> t < x@.len(),
{
    let n: usize = x.len();
    let mut sum: S = zero_of();
    for i in 0..n
        invariant
            n == x@.len(),
            sum == sum_upto(x@, i as int),
    {
        sum = sum.plus(&x[i]);
    }
    if is_at_most(&sum, &zero_of()) || n == 0 {
        return 0;
    }
    let inv: S = one_of::<S>().over(&sum);
    let mut cum: S = zero_of();
    for i in 0..n
        invariant
            n == x@.len(),
            0 < n,
            cum == share_upto(x@, inv, i as int),
            inv == one::<S>().s_over(sum_upto(x@, n as int)),
            !at_most(sum_upto(x@, n as int), zero()),
            picked(x@, *r) == reached(x@, inv, *r, i as int),
    {
        cum = cum.plus(&x[i].times(&inv));
        if is_at_most(r, &cum) {
            return i;
        }
    }
    n - 1
}

/// A number in `[0, 1)` from 32 random bits.
pub fn uniform_of<S: Scalar>(draw: u32) -> (r: S)
    ensures
        r == uniform::<S>(draw),
{
    assert(draw >> 8 == draw / 256) by (bit_vector);
    S::of_bits(UNIFORM_STEP_BITS).times(&S::of_usize((draw >> 8) as usize))
}

/// Turn logits into the probabilities that are drawn from, or leave them tempered if the
/// highest one wins.
fn prepare<S: Scalar>(logits: &mut [S], temperature: &S, top_k: usize, top_p: &S, min_p: &S) -> (r:
    bool)
    ensures
        r == greedy(*temperature),
        final(logits)@ == sampled_from(old(logits)@, *temperature, top_k as int, *top_p, *min_p),
        final(logits)@.len() == old(logits)@.len(),
{
    apply_temperature(logits, temperature);
    if is_less(temperature, &S::of_bits(GREEDY_BELOW_BITS)) {
        return true;
    }
    softmax(logits);
    keep_top_k(logits, top_k);
    keep_top_p(logits, top_p);
    keep_min_p(logits, min_p);
    false
}

/// Choose a token with given random bits.
pub fn sample_with<S: Scalar>(
    logits: &mut [S],
    temperature: &S,
    top_k: usize,
    top_p: &S,
    min_p: &S,
    draw: u32,
) -> (r: usize)
    ensures
        r == sampled(old(logits)@, *temperature, top_k as int, *top_p, *min_p, draw),
        final(logits)@ == sampled_from(old(logits)@, *temperature, top_k as int, *top_p, *min_p),
        old(logits)@.len() > 0 ==> r < old(logits)@.len(),
{
    let highest_wins = prepare(logits, temperature, top_k, top_p, min_p);
    if highest_wins {
        return argmax(logits);
    }
    pick(logits, &uniform_of(draw))
}

/// 32 random bits from the thread's generator.
///
/// Trusted: `rand::thread_rng` and `rand::Rng::gen` for `u32`. Nothing is claimed of the bits.
/// The generator is seeded by the operating system on its first use in a thread; without a
/// source of randomness that first use panics.
#[verifier::external_body]
fn random_bits() -> (r: u32) {
    rand::Rng::gen::<u32>(&mut rand::thread_rng())
}

/// Choose a token: the logits are divided by the temperature; at a very low temperature the
/// highest wins, otherwise one is drawn from the probabilities that the three filters keep.
pub fn sample<S: Scalar>(logits: &mut [S], temperature: &S, top_k: usize, top_p: &S, min_p: &S) -> (r:
    usize)
    ensures
        exists|draw: u32|
            r == #[trigger] sampled(
                old(logits)@,
                *temperature,
                top_k as int,
                *top_p,
                *min_p,
                draw,
            ),
        final(logits)@ == sampled_from(old(logits)@, *temperature, top_k as int, *top_p, *min_p),
        old(logits)@.len() > 0 ==> r < old(logits)@.len(),
{
    let highest_wins = prepare(logits, temperature, top_k, top_p, min_p);
    if highest_wins {
        let r: usize = argmax(logits);
        assert(r == sampled(old(logits)@, *temperature, top_k as int, *top_p, *min_p, 0));
        return r;
    }
    let draw: u32 = random_bits();
    let r: usize = pick(logits, &uniform_of(draw));
    assert(r == sampled(old(logits)@, *temperature, top_k as int, *top_p, *min_p, draw));
    r
}

/// A choice of the highest logit does not depend on chance.
pub proof fn law_greedy_deterministic<S: Scalar>(
    logits: Seq<S>,
    temperature: S,
    top_k: int,
    top_p: S,
    min_p: S,
    draw1: u32,
    draw2: u32,
)
    requires
        greedy(temperature),
    ensures
        sampled(logits, temperature, top_k, top_p, min_p, draw1) == sampled(
            logits,
            temperature,
            top_k,
            top_p,
            min_p,
            draw2,
        ),
{
}

/// Logits stay as they are only at temperatures between `1 - 1e-7` and `1 + 1e-7`. At every
/// other temperature, below one as well as above, each of them is multiplied by one over the
/// temperature, which counts as at least `1e-8`.
pub proof fn law_temperature<S: Scalar>(x: Seq<S>, temperature: S, i: int)
    requires
        0 <= i < x.len(),
    ensures
        ({
            let off = temperature.s_minus(S::s_of_bits(0x3F80_0000)).s_bits();
            let far = float_lt(0x33D6_BF95, off) || float_lt(off, 0xB3D6_BF95);
            let inv = S::s_of_bits(0x3F80_0000).s_over(
                temperature.s_max(S::s_of_bits(0x322B_CC77)),
            );
            &&& tempered(x, temperature).len() == x.len()
            &&& far ==> tempered(x, temperature)[i] == x[i].s_times(inv)
            &&& !far ==> tempered(x, temperature)[i] == x[i]
        }),
{
}

/// A bit pattern gives the number that it is the pattern of, and the number gives it back.
pub open spec fn exact_patterns<S: Scalar>() -> bool {
    forall|bits: u32| !is_nan(bits) ==> (#[trigger] S::s_of_bits(bits)).s_bits() == bits
}

/// How many of the patterns are higher than `bits`.
spec fn count_above(s: Seq<u32>, bits: u32) -> int
    decreases s.len(),
{
    if s.len() == 0 {
        0
    } else {
        count_above(s.drop_last(), bits) + (if float_lt(bits, s.last()) {
            1int
        } else {
            0
        })
    }
}

proof fn lemma_count_bounds(s: Seq<u32>, bits: u32)
    ensures
        0 <= count_above(s, bits) <= s.len(),
    decreases s.len(),
{
    if s.len() > 0 {
        lemma_count_bounds(s.drop_last(), bits);
    }
}

proof fn lemma_count_join(a: Seq<u32>, b: Seq<u32>, bits: u32)
    ensures
        count_above(a + b, bits) == count_above(a, bits) + count_above(b, bits),
    decreases b.len(),
{
    if b.len() > 0 {
        lemma_count_join(a, b.drop_last(), bits);
        assert((a + b).drop_last() =~= a + b.drop_last());
    } else {
        assert(a + b =~= a);
    }
}

proof fn lemma_count_one(x: u32, bits: u32)
    ensures
        count_above(seq![x], bits) == (if float_lt(bits, x) {
            1int
        } else {
            0
        }),
{
    assert(seq![x].drop_last() =~= Seq::empty());
    assert(count_above(seq![x].drop_last(), bits) == 0);
}

proof fn lemma_count_insert(s: Seq<u32>, x: u32, bits: u32)
    ensures
        count_above(insert_desc(s, x), bits) == count_above(s, bits) + count_above(seq![x], bits),
    decreases s.len(),
{
    if s.len() == 0 {
        assert(s =~= Seq::empty());
    } else if rank(x) >= rank(s[0]) {
        lemma_count_join(seq![x], s, bits);
    } else {
        let rest = s.drop_first();
        lemma_count_insert(rest, x, bits);
        lemma_count_join(seq![s[0]], insert_desc(rest, x), bits);
        lemma_count_join(seq![s[0]], rest, bits);
        assert(seq![s[0]] + rest =~= s);
    }
}

proof fn lemma_count_sorted(s: Seq<u32>, bits: u32)
    ensures
        count_above(sorted_desc(s), bits) == count_above(s, bits),
    decreases s.len(),
{
    if s.len() > 0 {
        let rest = s.drop_first();
        lemma_count_sorted(rest, bits);
        lemma_count_insert(sorted_desc(rest), s[0], bits);
        lemma_count_join(seq![s[0]], rest, bits);
        assert(seq![s[0]] + rest =~= s);
    }
}

/// In a descending sequence the patterns that are higher come first.
proof fn lemma_count_descending(s: Seq<u32>, bits: u32, k: int)
    requires
        descending(s),
        forall|j: int| 0 <= j < s.len() ==> !is_nan(#[trigger] s[j]),
        0 <= k < s.len(),
    ensures
        float_lt(bits, s[k]) <==> k < count_above(s, bits),
    decreases s.len(),
{
    let rest = s.drop_last();
    let n = rest.len() as int;
    lemma_count_bounds(rest, bits);
    assert(descending(rest)) by {
        assert forall|i: int, j: int| 0 <= i < j < rest.len() implies rank(#[trigger] rest[i])
            >= rank(#[trigger] rest[j]) by {
            assert(rank(s[i]) >= rank(s[j]));
        }
    }
    assert forall|j: int| 0 <= j < rest.len() implies !is_nan(#[trigger] rest[j]) by {
        assert(!is_nan(s[j]));
    }
    if float_lt(bits, s.last()) && n > 0 {
        assert(rank(s[n - 1]) >= rank(s[n]));
        law_rank_orders(s[n - 1], s[n]);
        assert(!is_nan(s[n - 1]));
        lemma_count_descending(rest, bits, n - 1);
    }
    if k < n {
        lemma_count_descending(rest, bits, k);
    }
}

proof fn lemma_count_is_filter<S: Scalar>(x: Seq<S>, y: S)
    ensures
        count_above(patterns(x), y.s_bits()) == x.filter(|z: S| less(y, z)).len(),
    decreases x.len(),
{
    reveal(Seq::filter);
    if x.len() > 0 {
        lemma_count_is_filter(x.drop_last(), y);
        assert(patterns(x).drop_last() =~= patterns(x.drop_last()));
    }
}

/// The first filter keeps a number exactly if fewer than `k` of the numbers are higher; the
/// others become zero. With `k` 0 or not below their number all are kept.
pub proof fn law_top_k<S: Scalar>(x: Seq<S>, k: int, i: int)
    requires
        0 <= i < x.len(),
        exact_patterns::<S>(),
        forall|j: int| 0 <= j < x.len() ==> !is_nan((#[trigger] x[j]).s_bits()),
    ensures
        top_k_kept(x, k).len() == x.len(),
        0 < k < x.len() ==> top_k_kept(x, k)[i] == (if x.filter(
            |y: S| less(x[i], y),
        ).len() < k {
            x[i]
        } else {
            zero()
        }),
        !(0 < k < x.len()) ==> top_k_kept(x, k) == x,
{
    if 0 < k < x.len() {
        let p = patterns(x);
        let s = sorted_desc(p);
        law_sorted_desc(p);
        lemma_count_sorted(p, x[i].s_bits());
        lemma_count_is_filter(x, x[i]);
        assert forall|j: int| 0 <= j < s.len() implies !is_nan(#[trigger] s[j]) by {
            broadcast use vstd::seq_lib::group_to_multiset_ensures;

            assert(s.contains(s[j]));
            assert(s.to_multiset().count(s[j]) > 0);
            assert(p.to_multiset().count(s[j]) > 0);
            let m = choose|m: int| 0 <= m < p.len() && p[m] == s[j];
            assert(!is_nan(x[m].s_bits()));
        }
        lemma_count_descending(s, x[i].s_bits(), k - 1);
        assert(!is_nan(s[k - 1]));
        assert(S::s_of_bits(s[k - 1]).s_bits() == s[k - 1]);
    }
}

/// The values of a descending sequence of patterns.
pub open spec fn values_of<S: Scalar>(s: Seq<u32>) -> Seq<S> {
    Seq::new(s.len(), |i: int| S::s_of_bits(s[i]))
}

/// `cut` is the first of the values at which the share of all values so far reaches `top_p`, or
/// zero if none of them does.
pub open spec fn is_nucleus_cut<S: Scalar>(values: Seq<S>, top_p: S, cut: S) -> bool {
    let reaches = |n: int| at_most(top_p, total(values.take(n)).s_over(total(values)));
    ||| exists|i: int|
        {
            &&& 0 <= i < values.len()
            &&& cut == #[trigger] values[i]
            &&& reaches(i + 1)
            &&& forall|j: int| 0 < j <= i ==> !#[trigger] reaches(j)
        }
    ||| cut == zero::<S>() && forall|j: int| 0 < j <= values.len() ==> !#[trigger] reaches(j)
}

proof fn lemma_pattern_sum<S: Scalar>(s: Seq<u32>, n: int)
    requires
        0 <= n <= s.len(),
    ensures
        pattern_sum::<S>(s, n) == total(values_of::<S>(s).take(n)),
    decreases n,
{
    if n > 0 {
        lemma_pattern_sum::<S>(s, n - 1);
        lemma_total_step(values_of::<S>(s), n - 1);
    }
}

proof fn lemma_nucleus_cut<S: Scalar>(s: Seq<u32>, top_p: S, i: int)
    requires
        0 <= i <= s.len(),
        forall|j: int|
            0 < j <= i ==> !at_most(
                top_p,
                (#[trigger] total(values_of::<S>(s).take(j))).s_over(total(values_of::<S>(s))),
            ),
    ensures
        is_nucleus_cut(values_of::<S>(s), top_p, nucleus_cut(s, top_p, i)),
    decreases s.len() - i,
{
    let v = values_of::<S>(s);
    let reaches = |n: int| at_most(top_p, total(v.take(n)).s_over(total(v)));
    lemma_take_all(v);
    lemma_pattern_sum::<S>(s, s.len() as int);
    if i < s.len() {
        lemma_pattern_sum::<S>(s, i + 1);
        if reaches(i + 1) {
            assert(v[i] == nucleus_cut(s, top_p, i));
            assert forall|j: int| 0 < j <= i implies !#[trigger] reaches(j) by {
                assert(!at_most(top_p, total(v.take(j)).s_over(total(v))));
            }
        } else {
            lemma_nucleus_cut(s, top_p, i + 1);
        }
    } else {
        assert forall|j: int| 0 < j <= v.len() implies !#[trigger] reaches(j) by {
            assert(!at_most(top_p, total(v.take(j)).s_over(total(v))));
        }
    }
}

proof fn lemma_positive<S: Scalar>(x: Seq<S>, n: int)
    requires
        0 <= n <= x.len(),
    ensures
        positive_upto(x, n) == patterns(x.take(n).filter(|y: S| less(zero(), y))),
    decreases n,
{
    reveal(Seq::filter);
    let keep = |y: S| less(zero(), y);
    if n > 0 {
        lemma_positive(x, n - 1);
        let t = x.take(n);
        assert(t.drop_last() =~= x.take(n - 1));
        let before = x.take(n - 1).filter(keep);
        if keep(x[n - 1]) {
            assert(t.filter(keep) == before.push(x[n - 1]));
            assert(patterns(before.push(x[n - 1])) =~= patterns(before).push(x[n - 1].s_bits()));
        }
    } else {
        assert(patterns(x.take(0).filter(keep)) =~= Seq::empty());
    }
}

/// The second filter, where `top_p` is below one: the positive numbers are lined up from the
/// highest to the lowest, and the cut is the first of them at which their share so far reaches
/// `top_p`. Numbers below the cut become zero, all others are kept.
pub proof fn law_top_p<S: Scalar>(x: Seq<S>, top_p: S, i: int)
    requires
        0 <= i < x.len(),
    ensures
        top_p_kept(x, top_p).len() == x.len(),
        !less(top_p, one()) ==> top_p_kept(x, top_p) == x,
        less(top_p, one()) ==> exists|line: Seq<u32>, cut: S|
            {
                &&& descending(line)
                &&& line.to_multiset() == patterns(
                    x.filter(|y: S| less(zero(), y)),
                ).to_multiset()
                &&& #[trigger] is_nucleus_cut(values_of::<S>(line), top_p, cut)
                &&& top_p_kept(x, top_p)[i] == (if less(x[i], cut) {
                    zero()
                } else {
                    x[i]
                })
            },
{
    if less(top_p, one()) {
        lemma_positive(x, x.len() as int);
        lemma_take_all(x);
        let line = sorted_desc(positive_upto(x, x.len() as int));
        law_sorted_desc(positive_upto(x, x.len() as int));
        lemma_nucleus_cut(line, top_p, 0);
        assert(is_nucleus_cut(values_of::<S>(line), top_p, nucleus_cut(line, top_p, 0)));
    }
}

proof fn lemma_peak<S: Scalar>(x: Seq<S>, n: int)
    requires
        0 <= n <= x.len(),
    ensures
        peak_upto(x, n) == x.take(n).fold_left(zero::<S>(), |top: S, y: S| top.s_max(y)),
    decreases n,
{
    if n > 0 {
        lemma_peak(x, n - 1);
        assert(x.take(n).drop_last() =~= x.take(n - 1));
    }
}

/// The third filter, where `min_p` is above zero: numbers below `min_p` times the largest, which
/// counts as at least zero, become zero, all others are kept.
pub proof fn law_min_p<S: Scalar>(x: Seq<S>, min_p: S, i: int)
    requires
        0 <= i < x.len(),
    ensures
        ({
            let top = x.fold_left(zero::<S>(), |top: S, y: S| top.s_max(y));
            &&& min_p_kept(x, min_p).len() == x.len()
            &&& min_p_kept(x, min_p)[i] == (if less(zero(), min_p) && less(
                x[i],
                top.s_times(min_p),
            ) {
                zero()
            } else {
                x[i]
            })
        }),
{
    lemma_peak(x, x.len() as int);
    lemma_take_all(x);
}

/// The shares of numbers in their sum.
pub open spec fn shares<S: Scalar>(x: Seq<S>) -> Seq<S> {
    let inv = one::<S>().s_over(total(x));
    Seq::new(x.len(), |i: int| x[i].s_times(inv))
}

proof fn lemma_share_upto<S: Scalar>(x: Seq<S>, n: int)
    requires
        0 <= n <= x.len(),
    ensures
        share_upto(x, one::<S>().s_over(total(x)), n) == total(shares(x).take(n)),
    decreases n,
{
    if n > 0 {
        lemma_share_upto(x, n - 1);
        lemma_total_step(shares(x), n - 1);
    }
}

proof fn lemma_reached<S: Scalar>(x: Seq<S>, r: S, i: int)
    requires
        0 <= i < x.len(),
    ensures
        ({
            let t = reached(x, one::<S>().s_over(total(x)), r, i);
            &&& i <= t < x.len()
            &&& forall|j: int| i <= j < t ==> !at_most(r, #[trigger] total(shares(x).take(j + 1)))
            &&& at_most(r, total(shares(x).take(t + 1))) || t == x.len() - 1
        }),
    decreases x.len() - i,
{
    lemma_share_upto(x, i + 1);
    if !at_most(r, total(shares(x).take(i + 1))) && i + 1 < x.len() {
        lemma_reached(x, r, i + 1);
    }
}

/// A draw picks the first token at which the shares so far reach the drawn number, and the last
/// token if they never do; if the numbers do not sum to more than zero it picks token 0.
pub proof fn law_picked<S: Scalar>(x: Seq<S>, r: S)
    requires
        0 < x.len(),
    ensures
        ({
            let t = picked(x, r);
            &&& 0 <= t < x.len()
            &&& at_most(total(x), zero()) ==> t == 0
            &&& !at_most(total(x), zero()) ==> {
                &&& forall|j: int|
                    0 <= j < t ==> !at_most(r, #[trigger] total(shares(x).take(j + 1)))
                &&& at_most(r, total(shares(x).take(t + 1))) || t == x.len() - 1
            }
        }),
{
    law_sum(x);
    lemma_reached(x, r, 0);
}

/// A share of nothing brings the shares no nearer to a number.
pub open spec fn nothing_adds_nothing<S: Scalar>(inv: S, r: S) -> bool {
    forall|a: S|
        at_most(r, #[trigger] a.s_plus(zero::<S>().s_times(inv))) ==> at_most(r, a)
}

/// A token is picked only if it has a probability: the number at its place is not zero, unless
/// the drawn number is not above zero or the shares never reach it.
pub proof fn law_picked_has_probability<S: Scalar>(x: Seq<S>, r: S)
    requires
        0 < x.len(),
        !at_most(total(x), zero()),
        nothing_adds_nothing(one::<S>().s_over(total(x)), r),
        at_most(r, total(shares(x))),
        !at_most(r, zero()),
    ensures
        0 <= picked(x, r) < x.len(),
        x[picked(x, r)] != zero::<S>(),
{
    let t = picked(x, r);
    law_picked(x, r);
    lemma_take_all(shares(x));
    lemma_total_step(shares(x), t);
    if x[t] == zero::<S>() {
        let before = total(shares(x).take(t));
        assert(at_most(r, before.s_plus(zero::<S>().s_times(one::<S>().s_over(total(x))))));
        if t > 0 {
            assert(!at_most(r, total(shares(x).take((t - 1) + 1))));
        }
    }
}

/// The drawn number: the upper 24 of 32 random bits, times 2^-24.
pub open spec fn drawn<S: Scalar>(draw: u32) -> S {
    S::s_of_bits(0x3380_0000).s_times(S::s_of_usize((draw / 0x100) as usize))
}

/// Where the highest logit does not win, the token is drawn: the logits are divided by the
/// temperature and made probabilities by softmax; the three filters, `top_k`, then `top_p`, then
/// `min_p`, set probabilities to zero; and the token is the first one at which the shares of what
/// is left reach the drawn number, or the last one if they never do.
pub proof fn law_sampled<S: Scalar>(
    logits: Seq<S>,
    temperature: S,
    top_k: int,
    top_p: S,
    min_p: S,
    draw: u32,
)
    requires
        0 < logits.len(),
        !float_lt(temperature.s_bits(), S::s_of_bits(0x3C23_D70A).s_bits()),
    ensures
        ({
            let p = softmax_of(tempered(logits, temperature), 0, logits.len() as int);
            let left = min_p_kept(top_p_kept(top_k_kept(p, top_k), top_p), min_p);
            let t = sampled(logits, temperature, top_k, top_p, min_p, draw);
            &&& left.len() == logits.len()
            &&& 0 <= t < logits.len()
            &&& at_most(total(left), zero()) ==> t == 0
            &&& !at_most(total(left), zero()) ==> {
                &&& forall|j: int|
                    0 <= j < t ==> !at_most(
                        drawn::<S>(draw),
                        #[trigger] total(shares(left).take(j + 1)),
                    )
                &&& at_most(drawn::<S>(draw), total(shares(left).take(t + 1))) || t
                    == logits.len() - 1
            }
            &&& sampled_from(logits, temperature, top_k, top_p, min_p) == left
        }),
{
    let p = softmax_of(tempered(logits, temperature), 0, logits.len() as int);
    law_picked(min_p_kept(top_p_kept(top_k_kept(p, top_k), top_p), min_p), drawn::<S>(draw));
}

/// Only a token that the filters leave a probability can be drawn, unless the drawn number is
/// not above zero or the shares never reach it.
pub proof fn law_sampled_has_probability<S: Scalar>(
    logits: Seq<S>,
    temperature: S,
    top_k: int,
    top_p: S,
    min_p: S,
    draw: u32,
)
    requires
        0 < logits.len(),
        !float_lt(temperature.s_bits(), S::s_of_bits(0x3C23_D70A).s_bits()),
        !at_most(drawn::<S>(draw), zero()),
        ({
            let p = softmax_of(tempered(logits, temperature), 0, logits.len() as int);
            let left = min_p_kept(top_p_kept(top_k_kept(p, top_k), top_p), min_p);
            &&& !at_most(total(left), zero())
            &&& at_most(drawn::<S>(draw), total(shares(left)))
            &&& nothing_adds_nothing(one::<S>().s_over(total(left)), drawn::<S>(draw))
        }),
    ensures
        ({
            let p = softmax_of(tempered(logits, temperature), 0, logits.len() as int);
            let left = min_p_kept(top_p_kept(top_k_kept(p, top_k), top_p), min_p);
            let t = sampled(logits, temperature, top_k, top_p, min_p, draw);
            0 <= t < logits.len() && left[t] != zero::<S>()
        }),
{
    let p = softmax_of(tempered(logits, temperature), 0, logits.len() as int);
    let left = min_p_kept(top_p_kept(top_k_kept(p, top_k), top_p), min_p);
    law_picked_has_probability(left, drawn::<S>(draw));
}

/// With `top_k` one, and one probability above all others, the token with that probability is
/// drawn, unless the drawn number is not above zero or the shares never reach it.
pub proof fn law_top_one<S: Scalar>(
    logits: Seq<S>,
    temperature: S,
    top_p: S,
    min_p: S,
    draw: u32,
    m: int,
)
    requires
        1 < logits.len(),
        0 <= m < logits.len(),
        exact_patterns::<S>(),
        !float_lt(temperature.s_bits(), S::s_of_bits(0x3C23_D70A).s_bits()),
        !at_most(drawn::<S>(draw), zero()),
        ({
            let p = softmax_of(tempered(logits, temperature), 0, logits.len() as int);
            let left = min_p_kept(top_p_kept(top_k_kept(p, 1), top_p), min_p);
            &&& forall|j: int| 0 <= j < p.len() ==> !is_nan((#[trigger] p[j]).s_bits())
            &&& forall|j: int| 0 <= j < p.len() && j != m ==> less(#[trigger] p[j], p[m])
            &&& !at_most(total(left), zero())
            &&& at_most(drawn::<S>(draw), total(shares(left)))
            &&& nothing_adds_nothing(one::<S>().s_over(total(left)), drawn::<S>(draw))
        }),
    ensures
        sampled(logits, temperature, 1, top_p, min_p, draw) == m,
{
    let p = softmax_of(tempered(logits, temperature), 0, logits.len() as int);
    let a = top_k_kept(p, 1);
    let b = top_p_kept(a, top_p);
    let t = sampled(logits, temperature, 1, top_p, min_p, draw);
    law_sampled_has_probability(logits, temperature, 1, top_p, min_p, draw);
    if t != m {
        law_top_k(p, 1, t);
        let keep = |y: S| less(p[t], y);
        let above = p.filter(keep);
        assert(above.len() > 0) by {
            p.filter_lemma(keep);
            assert(keep(p[m]));
            assert(above.contains(p[m]));
        }
        assert(a[t] == zero::<S>());
        law_top_p(a, top_p, t);
        assert(b[t] == zero::<S>());
        law_min_p(b, min_p, t);
    }
}

/// The token of the highest logit wins at a temperature below 0.01, whatever is drawn: no
/// logit, divided by the temperature, is higher, and none behind it is as high.
pub proof fn law_greedy_takes_highest<S: Scalar>(
    logits: Seq<S>,
    temperature: S,
    top_k: int,
    top_p: S,
    min_p: S,
    draw: u32,
    i: int,
)
    requires
        0 <= i < logits.len(),
        float_lt(temperature.s_bits(), S::s_of_bits(0x3C23_D70A).s_bits()),
        forall|j: int|
            0 <= j < logits.len() ==> !is_nan(
                (#[trigger] tempered(logits, temperature)[j]).s_bits(),
            ),
    ensures
        ({
            let t = sampled(logits, temperature, top_k, top_p, min_p, draw);
            let x = tempered(logits, temperature);
            &&& 0 <= t < logits.len()
            &&& order_key(x[i].s_bits()) <= order_key(x[t].s_bits())
            &&& t < i ==> order_key(x[i].s_bits()) < order_key(x[t].s_bits())
            &&& sampled_from(logits, temperature, top_k, top_p, min_p) == x
        }),
{
    law_argmax_highest(tempered(logits, temperature), logits.len() as int, i);
}

} // verus!
