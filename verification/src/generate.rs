//! Token generation with any engine.

use std::collections::HashSet;
use vstd::prelude::*;

use crate::float_bits::{float_lt, is_nan, order_key};
use crate::math_util::{copy_of, softmax_of};
use crate::sample::{
    argmax, argmax_upto, at_most, drawn, exact_patterns, greedy, is_less, law_argmax_highest,
    law_sampled, law_sampled_has_probability, law_top_one, less, min_p_kept, nothing_adds_nothing,
    sample, sampled, shares, tempered, top_k_kept, top_p_kept, GREEDY_BELOW_BITS,
};
use crate::scalar::{one, zero, Scalar};
use crate::sums::total;

verus! {

/// What computes logits. `C` is the cache of the sequence so far, `G` a way to ask for a stop.
pub trait Engine<S: Scalar, C, G>: Sized {
    /// Processing `input_ids` may take engine, cache and signal from `before` to `after` and
    /// return `r`. An engine that does not say more may do anything.
    open spec fn may_return(
        before: (Self, C, G),
        input_ids: Seq<i64>,
        after: (Self, C, G),
        r: Result<Vec<S>, String>,
    ) -> bool {
        true
    }

    /// Process tokens. Returns the logits of each of them, one row behind the other.
    fn forward(&mut self, input_ids: &[i64], cache: &mut C, signal: &mut G) -> (r: Result<
        Vec<S>,
        String,
    >)
        ensures
            Self::may_return(
                (*old(self), *old(cache), *old(signal)),
                input_ids@,
                (*final(self), *final(cache), *final(signal)),
                r,
            ),
    ;
}

/// A call of an engine.
pub struct Call<S, C, G, E> {
    /// Engine, cache and signal before the call.
    pub before: (E, C, G),
    pub input_ids: Seq<i64>,
    /// Engine, cache and signal after the call.
    pub after: (E, C, G),
    pub result: Result<Vec<S>, String>,
}

/// How tokens are chosen, and when to stop.
pub struct SampleParams<S> {
    pub max_tokens: usize,
    pub temperature: S,
    pub top_k: usize,
    pub top_p: S,
    pub min_p: S,
    pub eos: HashSet<usize>,
}

/// The token that logits and random bits give.
pub open spec fn token_of<S: Scalar>(logits: Seq<S>, params: SampleParams<S>, draw: u32) -> int {
    if greedy(params.temperature) {
        argmax_upto(logits, logits.len() as int)
    } else {
        sampled(
            logits,
            params.temperature,
            params.top_k as int,
            params.top_p,
            params.min_p,
            draw,
        )
    }
}

/// Choose a token: the highest logit at a very low temperature, else a sample.
pub fn pick_token<S: Scalar>(logits: &[S], params: &SampleParams<S>) -> (r: usize)
    ensures
        exists|draw: u32| r == #[trigger] token_of(logits@, *params, draw),
        logits@.len() > 0 ==> r < logits@.len(),
{
    if is_less(&params.temperature, &S::of_bits(GREEDY_BELOW_BITS)) {
        let r: usize = argmax(logits);
        assert(r == token_of(logits@, *params, 0));
        r
    } else {
        let mut copy = copy_of(logits);
        let r: usize = sample(
            copy.as_mut_slice(),
            &params.temperature,
            params.top_k,
            &params.top_p,
            &params.min_p,
        );
        proof {
            let draw = choose|draw: u32|
                r == #[trigger] sampled(
                    logits@,
                    params.temperature,
                    params.top_k as int,
                    params.top_p,
                    params.min_p,
                    draw,
                );
            assert(r == token_of(logits@, *params, draw));
        }
        r
    }
}

/// The logits of the last of `n` tokens; none without tokens.
pub open spec fn last_row<S>(logits: Seq<S>, n: int) -> Seq<S> {
    if n > 0 {
        logits.skip(logits.len() - logits.len() as int / n)
    } else {
        Seq::empty()
    }
}

/// The logits of the last of `n` tokens.
pub fn last_logits<S: Scalar>(logits: &Vec<S>, n: usize) -> (r: Vec<S>)
    ensures
        r@ == last_row(logits@, n as int),
{
    let mut r: Vec<S> = Vec::new();
    if n == 0 {
        return r;
    }
    let len: usize = logits.len();
    proof {
        vstd::arithmetic::div_mod::lemma_div_is_ordered_by_denominator(len as int, 1, n as int);
        vstd::arithmetic::div_mod::lemma_div_basics(len as int);
        vstd::arithmetic::div_mod::lemma_div_pos_is_pos(len as int, n as int);
    }
    let vs: usize = len / n;
    let from: usize = len - vs;
    for i in from..len
        invariant
            len == logits@.len(),
            from <= len,
            r@ == logits@.skip(from as int).take(i - from),
    {
        r.push(logits[i].dup());
        assert(r@ =~= logits@.skip(from as int).take(i + 1 - from));
    }
    assert(r@ =~= logits@.skip(from as int));
    r
}

/// Go on with what the engine returned for `n` tokens: an error is passed on; else the token
/// that follows is chosen from the logits of the last of them. Without tokens it is 0.
pub fn take_logits<S: Scalar>(
    result: Result<Vec<S>, String>,
    n: usize,
    params: &SampleParams<S>,
) -> (r: Result<(Vec<S>, usize), String>)
    ensures
        match result {
            Err(e) => r == Err::<(Vec<S>, usize), String>(e),
            Ok(l) => {
                &&& r matches Ok((row, next))
                &&& row@ == last_row(l@, n as int)
                &&& n == 0 ==> next == 0
                &&& n > 0 ==> exists|draw: u32| next == #[trigger] token_of(row@, *params, draw)
            },
        },
{
    match result {
        Err(e) => Err(e),
        Ok(l) => {
            let row: Vec<S> = last_logits(&l, n);
            let next: usize = if n > 0 {
                pick_token(row.as_slice(), params)
            } else {
                0
            };
            Ok((row, next))
        },
    }
}

/// What was generated.
pub struct Generated<S> {
    pub tokens: Vec<i64>,
    /// The logits that the engine returned last.
    pub last_logits: Vec<S>,
}

/// What a caller is told of a generation besides its result.
#[derive(Clone, Copy, Debug, PartialEq, Eq, Structural)]
pub struct RunRecord {
    pub tokens_generated: usize,
}

impl<S> Generated<S> {
    /// The record of the generation: how many tokens were put out.
    pub fn record(&self) -> (r: RunRecord)
        ensures
            r.tokens_generated == self.tokens@.len(),
    {
        RunRecord { tokens_generated: self.tokens.len() }
    }
}

/// The logits that the token at a place is chosen from: those of the last input token, and
/// then those of each generated token.
pub open spec fn row_at<S>(trace: Seq<Seq<S>>, n: int, i: int) -> Seq<S> {
    if i == 0 {
        last_row(trace[0], n)
    } else {
        trace[i]
    }
}

/// The token that is chosen at a place; without input the first one is 0.
pub open spec fn choice_at<S: Scalar>(
    trace: Seq<Seq<S>>,
    draws: Seq<u32>,
    params: SampleParams<S>,
    n: int,
    i: int,
) -> int {
    if i == 0 && n == 0 {
        0
    } else {
        token_of(row_at(trace, n, i), params, draws[i])
    }
}

/// The tokens are the choices from the given logits with the given random bits, none of them
/// ends the text, and there are no more than the limit.
pub open spec fn are_choices<S: Scalar>(
    trace: Seq<Seq<S>>,
    draws: Seq<u32>,
    params: SampleParams<S>,
    n: int,
    tokens: Seq<i64>,
) -> bool {
    &&& tokens.len() <= params.max_tokens
    &&& forall|i: int|
        0 <= i < tokens.len() ==> #[trigger] tokens[i] == choice_at(trace, draws, params, n, i)
            as usize as i64 && !params.eos@.contains(
            choice_at(trace, draws, params, n, i) as usize,
        )
}

/// The run of an engine that returned the given logits, with the given random bits: every
/// token but the last choice is put out, none of them ends the text, and the run ends at the
/// limit or at a choice that ends the text.
pub open spec fn is_run<S: Scalar>(
    trace: Seq<Seq<S>>,
    draws: Seq<u32>,
    params: SampleParams<S>,
    n: int,
    tokens: Seq<i64>,
) -> bool {
    &&& trace.len() == tokens.len() + 1
    &&& draws.len() == tokens.len() + 1
    &&& are_choices(trace, draws, params, n, tokens)
    &&& tokens.len() == params.max_tokens || params.eos@.contains(
        choice_at(trace, draws, params, n, tokens.len() as int) as usize,
    )
}

/// The call at a place of a run that started at `start`: the first is for the input tokens,
/// each other for the token chosen last, where the call before left engine, cache and signal.
/// The run goes on only behind a call that succeeded.
pub open spec fn is_call<S: Scalar, C, G, E: Engine<S, C, G>>(
    calls: Seq<Call<S, C, G, E>>,
    input_ids: Seq<i64>,
    tokens: Seq<i64>,
    start: (E, C, G),
    i: int,
) -> bool {
    let call = calls[i];
    &&& E::may_return(call.before, call.input_ids, call.after, call.result)
    &&& i == 0 ==> call.before == start && call.input_ids == input_ids
    &&& i > 0 ==> call.before == calls[i - 1].after && call.input_ids == seq![tokens[i - 1]]
    &&& i < tokens.len() ==> call.result is Ok
}

/// The calls of a run from `start` to `end`: one for the input tokens, and then one for each
/// token. All of them succeeded but perhaps the last.
pub open spec fn are_calls<S: Scalar, C, G, E: Engine<S, C, G>>(
    calls: Seq<Call<S, C, G, E>>,
    input_ids: Seq<i64>,
    tokens: Seq<i64>,
    start: (E, C, G),
    end: (E, C, G),
) -> bool {
    &&& calls.len() == tokens.len() + 1
    &&& calls.last().after == end
    &&& forall|i: int|
        0 <= i < calls.len() ==> #[trigger] is_call(calls, input_ids, tokens, start, i)
}

/// The logits that calls returned.
pub open spec fn logits_of<S: Scalar, C, G, E>(calls: Seq<Call<S, C, G, E>>) -> Seq<Seq<S>> {
    Seq::new(calls.len(), |i: int| calls[i].result->Ok_0@)
}

/// The calls make up a whole run: none failed, and the tokens and the last logits are those of
/// a run over the logits that the calls returned.
pub open spec fn is_finished<S: Scalar, C, G, E: Engine<S, C, G>>(
    calls: Seq<Call<S, C, G, E>>,
    draws: Seq<u32>,
    start: (E, C, G),
    input_ids: Seq<i64>,
    params: SampleParams<S>,
    end: (E, C, G),
    g: Generated<S>,
) -> bool {
    let n = input_ids.len() as int;
    let trace = logits_of(calls);
    &&& are_calls(calls, input_ids, g.tokens@, start, end)
    &&& calls.last().result is Ok
    &&& is_run(trace, draws, params, n, g.tokens@)
    &&& g.last_logits@ == row_at(trace, n, g.tokens@.len() as int)
}

/// The last call failed with an error; the tokens up to it were chosen from the logits of the
/// calls before.
pub open spec fn is_broken<S: Scalar, C, G, E: Engine<S, C, G>>(
    calls: Seq<Call<S, C, G, E>>,
    draws: Seq<u32>,
    tokens: Seq<i64>,
    start: (E, C, G),
    input_ids: Seq<i64>,
    params: SampleParams<S>,
    end: (E, C, G),
    error: String,
) -> bool {
    &&& are_calls(calls, input_ids, tokens, start, end)
    &&& calls.last().result == Err::<Vec<S>, String>(error)
    &&& are_choices(logits_of(calls), draws, params, input_ids.len() as int, tokens)
}

/// Some calls of the engine make up a whole run with this outcome.
pub open spec fn finishes<S: Scalar, C, G, E: Engine<S, C, G>>(
    start: (E, C, G),
    input_ids: Seq<i64>,
    params: SampleParams<S>,
    end: (E, C, G),
    g: Generated<S>,
) -> bool {
    exists|calls: Seq<Call<S, C, G, E>>, draws: Seq<u32>|
        is_finished(calls, draws, start, input_ids, params, end, g)
}

/// Some calls of the engine end with this error.
pub open spec fn breaks<S: Scalar, C, G, E: Engine<S, C, G>>(
    start: (E, C, G),
    input_ids: Seq<i64>,
    params: SampleParams<S>,
    end: (E, C, G),
    error: String,
) -> bool {
    exists|calls: Seq<Call<S, C, G, E>>, draws: Seq<u32>, tokens: Seq<i64>|
        is_broken(calls, draws, tokens, start, input_ids, params, end, error)
}

proof fn lemma_another_call<S: Scalar, C, G, E: Engine<S, C, G>>(
    calls: Seq<Call<S, C, G, E>>,
    input_ids: Seq<i64>,
    tokens: Seq<i64>,
    start: (E, C, G),
    end: (E, C, G),
    call: Call<S, C, G, E>,
    token: i64,
)
    requires
        are_calls(calls, input_ids, tokens, start, end),
        calls.last().result is Ok,
        call.before == end,
        call.input_ids == seq![token],
        E::may_return(call.before, call.input_ids, call.after, call.result),
    ensures
        are_calls(calls.push(call), input_ids, tokens.push(token), start, call.after),
{
    let all = calls.push(call);
    let out = tokens.push(token);
    assert forall|i: int| 0 <= i < all.len() implies #[trigger] is_call(
        all,
        input_ids,
        out,
        start,
        i,
    ) by {
        if i < calls.len() {
            assert(is_call(calls, input_ids, tokens, start, i));
        }
    }
}

proof fn lemma_another_choice<S: Scalar>(
    trace: Seq<Seq<S>>,
    draws: Seq<u32>,
    row: Seq<S>,
    draw: u32,
    params: SampleParams<S>,
    n: int,
    tokens: Seq<i64>,
    token: i64,
)
    requires
        trace.len() == tokens.len() + 1,
        draws.len() == tokens.len() + 1,
        tokens.len() < params.max_tokens,
        are_choices(trace, draws, params, n, tokens),
        ({
            let choice = choice_at(trace, draws, params, n, tokens.len() as int) as usize;
            token == choice as i64 && !params.eos@.contains(choice)
        }),
    ensures
        are_choices(trace.push(row), draws.push(draw), params, n, tokens.push(token)),
{
    let out = tokens.push(token);
    assert forall|i: int| 0 <= i < out.len() implies #[trigger] out[i] == choice_at(
        trace.push(row),
        draws.push(draw),
        params,
        n,
        i,
    ) as usize as i64 && !params.eos@.contains(
        choice_at(trace.push(row), draws.push(draw), params, n, i) as usize,
    ) by {
        assert(choice_at(trace.push(row), draws.push(draw), params, n, i) == choice_at(
            trace,
            draws,
            params,
            n,
            i,
        ));
        if i < tokens.len() {
            assert(out[i] == tokens[i]);
        }
    }
}

/// Process the input tokens, and then generate one token after the other until the limit is
/// reached or a token ends the text, which is not put out. An error of the engine ends the
/// run; nothing else does. Whatever the engine returns, the result is that of a run over it.
pub fn generate<S: Scalar, C, G, E: Engine<S, C, G>>(
    engine: &mut E,
    input_ids: &[i64],
    cache: &mut C,
    params: &SampleParams<S>,
    signal: &mut G,
) -> (r: Result<Generated<S>, String>)
    ensures
        ({
            let start = (*old(engine), *old(cache), *old(signal));
            let end = (*final(engine), *final(cache), *final(signal));
            match r {
                Ok(g) => finishes(start, input_ids@, *params, end, g),
                Err(e) => breaks(start, input_ids@, *params, end, e),
            }
        }),
{
    broadcast use vstd::std_specs::hash::group_hash_axioms;

    let n: usize = input_ids.len();
    let ghost start = (*engine, *cache, *signal);
    let logits = engine.forward(input_ids, cache, signal);
    let ghost mut calls: Seq<Call<S, C, G, E>> = seq![
        Call {
            before: start,
            input_ids: input_ids@,
            after: (*engine, *cache, *signal),
            result: logits,
        },
    ];
    assert(are_calls(calls, input_ids@, seq![], start, (*engine, *cache, *signal)));
    let (mut logits_last, mut next): (Vec<S>, usize) = match take_logits(logits, n, params) {
        Ok(c) => c,
        Err(e) => {
            proof {
                let end = (*engine, *cache, *signal);
                assert(is_broken(calls, seq![], seq![], start, input_ids@, *params, end, e));
            }
            return Err(e);
        },
    };
    let ghost mut draws: Seq<u32> = if n > 0 {
        seq![choose|draw: u32| next == #[trigger] token_of(logits_last@, *params, draw)]
    } else {
        seq![0u32]
    };
    let mut output: Vec<i64> = Vec::new();
    let mut done = false;
    while output.len() < params.max_tokens && !done
        invariant
            n == input_ids@.len(),
            start == (*old(engine), *old(cache), *old(signal)),
            are_calls(calls, input_ids@, output@, start, (*engine, *cache, *signal)),
            calls.last().result is Ok,
            draws.len() == output@.len() + 1,
            logits_last@ == row_at(logits_of(calls), n as int, output@.len() as int),
            next == choice_at(logits_of(calls), draws, *params, n as int, output@.len() as int),
            are_choices(logits_of(calls), draws, *params, n as int, output@),
            done ==> params.eos@.contains(next),
        decreases params.max_tokens - output@.len() + (if done {
            0int
        } else {
            1int
        }),
    {
        if params.eos.contains(&next) {
            done = true;
        } else {
            let ghost out0 = output@;
            let ghost calls0 = calls;
            let ghost draws0 = draws;
            let ghost before = (*engine, *cache, *signal);
            let token: i64 = next as i64;
            output.push(token);
            let mut one: Vec<i64> = Vec::new();
            one.push(token);
            let logits = engine.forward(one.as_slice(), cache, signal);
            let ghost row = logits->Ok_0@;
            proof {
                let after = (*engine, *cache, *signal);
                let call = Call { before, input_ids: one@, after, result: logits };
                calls = calls.push(call);
                assert(one@ =~= seq![token]);
                lemma_another_call(calls0, input_ids@, out0, start, before, call, token);
            }
            match take_logits(logits, 1, params) {
                Ok(c) => {
                    logits_last = c.0;
                    next = c.1;
                },
                Err(e) => {
                    proof {
                        lemma_another_choice(
                            logits_of(calls0),
                            draws0,
                            row,
                            0,
                            *params,
                            n as int,
                            out0,
                            token,
                        );
                        assert(logits_of(calls) =~= logits_of(calls0).push(row));
                        let draws = draws0.push(0);
                        let end = (*engine, *cache, *signal);
                        assert(is_broken(
                            calls,
                            draws,
                            output@,
                            start,
                            input_ids@,
                            *params,
                            end,
                            e,
                        ));
                    }
                    return Err(e);
                },
            }
            proof {
                assert(last_row(row, 1) =~= row);
                let draw = choose|draw: u32|
                    next == #[trigger] token_of(logits_last@, *params, draw);
                draws = draws.push(draw);
                lemma_another_choice(
                    logits_of(calls0),
                    draws0,
                    row,
                    draw,
                    *params,
                    n as int,
                    out0,
                    token,
                );
                assert(logits_of(calls) =~= logits_of(calls0).push(row));
            }
        }
    }
    let g = Generated { tokens: output, last_logits: logits_last };
    proof {
        let end = (*engine, *cache, *signal);
        assert(is_finished(calls, draws, start, input_ids@, *params, end, g));
    }
    Ok(g)
}

/// A run puts out at most the limit, and no token that ends the text.
pub proof fn law_run_bounds<S: Scalar>(
    trace: Seq<Seq<S>>,
    draws: Seq<u32>,
    params: SampleParams<S>,
    n: int,
    tokens: Seq<i64>,
    i: int,
)
    requires
        is_run(trace, draws, params, n, tokens),
        0 <= i < tokens.len(),
    ensures
        tokens.len() <= params.max_tokens,
        !params.eos@.contains(choice_at(trace, draws, params, n, i) as usize),
{
    let c = choice_at(trace, draws, params, n, i);
    assert(tokens[i] == c as usize as i64);
}

/// Of the logits of `n` tokens, one row behind the other, the last row is that of the last
/// token.
pub proof fn law_last_row<S>(logits: Seq<S>, n: int, vocab: int, i: int)
    requires
        0 < n,
        0 <= i < vocab,
        logits.len() == n * vocab,
    ensures
        last_row(logits, n).len() == vocab,
        last_row(logits, n)[i] == logits[(n - 1) * vocab + i],
{
    vstd::arithmetic::div_mod::lemma_div_by_multiple(vocab, n);
    vstd::arithmetic::mul::lemma_mul_is_commutative(n, vocab);
    assert((n - 1) * vocab == n * vocab - vocab) by (nonlinear_arith);
    assert(0 <= (n - 1) * vocab) by (nonlinear_arith)
        requires
            0 < n,
            0 <= vocab,
    ;
}

/// At a temperature of at least 0.01 the token is drawn from the logits by what the parameters
/// say: softmax of the logits over the temperature, the three filters one after the other, and
/// then the first token at which the shares of what is left reach the drawn number, or the last
/// one if they never do.
pub proof fn law_token_is_drawn<S: Scalar>(logits: Seq<S>, params: SampleParams<S>, draw: u32)
    requires
        0 < logits.len(),
        !float_lt(params.temperature.s_bits(), S::s_of_bits(0x3C23_D70A).s_bits()),
    ensures
        ({
            let n = logits.len() as int;
            let p = softmax_of(tempered(logits, params.temperature), 0, n);
            let left = min_p_kept(
                top_p_kept(top_k_kept(p, params.top_k as int), params.top_p),
                params.min_p,
            );
            let t = token_of(logits, params, draw);
            &&& 0 <= t < n
            &&& at_most(total(left), zero()) ==> t == 0
            &&& !at_most(total(left), zero()) ==> {
                &&& forall|j: int|
                    0 <= j < t ==> !at_most(
                        drawn::<S>(draw),
                        #[trigger] total(shares(left).take(j + 1)),
                    )
                &&& at_most(drawn::<S>(draw), total(shares(left).take(t + 1))) || t == n - 1
            }
        }),
{
    law_sampled(
        logits,
        params.temperature,
        params.top_k as int,
        params.top_p,
        params.min_p,
        draw,
    );
}

/// A token that is drawn has a probability behind the filters, unless the drawn number is not
/// above zero or the shares never reach it. With `top_k` one, and one probability above all
/// others, it is the token with that probability.
pub proof fn law_token_has_probability<S: Scalar>(
    logits: Seq<S>,
    params: SampleParams<S>,
    draw: u32,
    m: int,
)
    requires
        1 < logits.len(),
        0 <= m < logits.len(),
        !float_lt(params.temperature.s_bits(), S::s_of_bits(0x3C23_D70A).s_bits()),
        !at_most(drawn::<S>(draw), zero()),
        exact_patterns::<S>(),
        ({
            let p = softmax_of(tempered(logits, params.temperature), 0, logits.len() as int);
            let left = min_p_kept(
                top_p_kept(top_k_kept(p, params.top_k as int), params.top_p),
                params.min_p,
            );
            &&& !at_most(total(left), zero())
            &&& at_most(drawn::<S>(draw), total(shares(left)))
            &&& nothing_adds_nothing(one::<S>().s_over(total(left)), drawn::<S>(draw))
        }),
    ensures
        ({
            let p = softmax_of(tempered(logits, params.temperature), 0, logits.len() as int);
            let left = min_p_kept(
                top_p_kept(top_k_kept(p, params.top_k as int), params.top_p),
                params.min_p,
            );
            let t = token_of(logits, params, draw);
            &&& 0 <= t < logits.len()
            &&& left[t] != zero::<S>()
            &&& params.top_k == 1 && (forall|j: int|
                0 <= j < p.len() ==> !is_nan((#[trigger] p[j]).s_bits())) && (forall|j: int|
                0 <= j < p.len() && j != m ==> less(#[trigger] p[j], p[m])) ==> t == m
        }),
{
    law_sampled_has_probability(
        logits,
        params.temperature,
        params.top_k as int,
        params.top_p,
        params.min_p,
        draw,
    );
    let p = softmax_of(tempered(logits, params.temperature), 0, logits.len() as int);
    if params.top_k == 1 && (forall|j: int|
        0 <= j < p.len() ==> !is_nan((#[trigger] p[j]).s_bits())) && (forall|j: int|
        0 <= j < p.len() && j != m ==> less(#[trigger] p[j], p[m])) {
        law_top_one(logits, params.temperature, params.top_p, params.min_p, draw, m);
    }
}

/// At a temperature below 0.01 the token is that of the highest logit, whatever is drawn: no
/// logit is higher, and none behind it is as high.
pub proof fn law_token_is_highest<S: Scalar>(
    logits: Seq<S>,
    params: SampleParams<S>,
    draw: u32,
    i: int,
)
    requires
        0 <= i < logits.len(),
        float_lt(params.temperature.s_bits(), S::s_of_bits(0x3C23_D70A).s_bits()),
        forall|j: int| 0 <= j < logits.len() ==> !is_nan((#[trigger] logits[j]).s_bits()),
    ensures
        ({
            let t = token_of(logits, params, draw);
            &&& 0 <= t < logits.len()
            &&& order_key(logits[i].s_bits()) <= order_key(logits[t].s_bits())
            &&& t < i ==> order_key(logits[i].s_bits()) < order_key(logits[t].s_bits())
        }),
{
    law_argmax_highest(logits, logits.len() as int, i);
}

/// What the calls of a finished run have to do with its tokens. The first call is for the whole
/// input, and each other call is for exactly the token that was put out before it. Each call
/// starts with the engine, cache and signal that the one before it left. Each token is the one
/// that the logits of its call give, those of the last input token for the first; none of them
/// ends the text. There are at most as many as asked for, and fewer only if the next one would
/// end the text.
pub proof fn law_run_feeds_back<S: Scalar, C, G, E: Engine<S, C, G>>(
    calls: Seq<Call<S, C, G, E>>,
    draws: Seq<u32>,
    start: (E, C, G),
    input_ids: Seq<i64>,
    params: SampleParams<S>,
    end: (E, C, G),
    g: Generated<S>,
    i: int,
)
    requires
        is_finished(calls, draws, start, input_ids, params, end, g),
        0 <= i <= g.tokens@.len(),
    ensures
        ({
            let n = input_ids.len() as int;
            let count = g.tokens@.len() as int;
            let logits = calls[i].result->Ok_0@;
            let row = if i > 0 {
                logits
            } else {
                last_row(logits, n)
            };
            let token = if i == 0 && n == 0 {
                0
            } else {
                token_of(row, params, draws[i])
            };
            &&& calls.len() == count + 1
            &&& calls[i].result is Ok
            &&& i == 0 ==> calls[i].input_ids == input_ids && calls[i].before == start
            &&& i > 0 ==> calls[i].input_ids.len() == 1 && calls[i].input_ids[0] == g.tokens@[i - 1]
                && calls[i].before == calls[i - 1].after
            &&& i == count ==> calls[i].after == end && g.last_logits@ == row
            &&& count <= params.max_tokens
            &&& i < count ==> g.tokens@[i] == token as usize as i64 && !params.eos@.contains(
                token as usize,
            )
            &&& i == count && count < params.max_tokens ==> params.eos@.contains(token as usize)
            &&& E::may_return(
                calls[i].before,
                calls[i].input_ids,
                calls[i].after,
                calls[i].result,
            )
        }),
{
    assert(is_call(calls, input_ids, g.tokens@, start, i));
    if i < g.tokens@.len() {
        assert(g.tokens@[i] == choice_at(logits_of(calls), draws, params, input_ids.len() as int, i)
            as usize as i64);
    }
}

/// A run that an error ended: the error is that of the last call, all calls before succeeded,
/// and they were made as in a finished run.
pub proof fn law_broken_run<S: Scalar, C, G, E: Engine<S, C, G>>(
    calls: Seq<Call<S, C, G, E>>,
    draws: Seq<u32>,
    tokens: Seq<i64>,
    start: (E, C, G),
    input_ids: Seq<i64>,
    params: SampleParams<S>,
    end: (E, C, G),
    error: String,
    i: int,
)
    requires
        is_broken(calls, draws, tokens, start, input_ids, params, end, error),
        0 <= i <= tokens.len(),
    ensures
        calls.len() == tokens.len() + 1,
        i == 0 ==> calls[i].input_ids == input_ids && calls[i].before == start,
        i > 0 ==> calls[i].input_ids == seq![tokens[i - 1]] && calls[i].before == calls[i
            - 1].after,
        i < tokens.len() ==> calls[i].result is Ok,
        i == tokens.len() ==> calls[i].result == Err::<Vec<S>, String>(error) && calls[i].after
            == end,
{
    assert(is_call(calls, input_ids, tokens, start, i));
}

} // verus!
