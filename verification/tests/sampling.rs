use std::collections::HashSet;

use moe_infer::bench::{
    clamp_experts, compare_outputs, passes, shader_name, speed_level, spread_experts,
};
use moe_infer::engine::TelemetrySwitch;
use moe_infer::generate::{generate, last_logits, pick_token, take_logits, Engine, SampleParams};
use moe_infer::sample::{argmax, pick, sample, sample_with, uniform_of};
use moe_infer::scalar::Scalar;
use moe_infer::sort::sort_desc;
use moe_infer::telemetry::{timing_add, timing_push, Telemetry, TelemetryValue};

#[derive(Clone, Copy, Debug, PartialEq)]
struct F(f32);

impl Scalar for F {
    fn of_bits(bits: u32) -> Self {
        F(f32::from_bits(bits))
    }
    fn bits(&self) -> u32 {
        self.0.to_bits()
    }
    fn of_usize(n: usize) -> Self {
        F(n as f32)
    }
    fn dup(&self) -> Self {
        *self
    }
    fn plus(&self, other: &Self) -> Self {
        F(self.0 + other.0)
    }
    fn minus(&self, other: &Self) -> Self {
        F(self.0 - other.0)
    }
    fn times(&self, other: &Self) -> Self {
        F(self.0 * other.0)
    }
    fn over(&self, other: &Self) -> Self {
        F(self.0 / other.0)
    }
    fn negated(&self) -> Self {
        F(-self.0)
    }
    fn larger(&self, other: &Self) -> Self {
        F(self.0.max(other.0))
    }
    fn exponential(&self) -> Self {
        F(self.0.exp())
    }
    fn logarithm(&self) -> Self {
        F(self.0.ln())
    }
    fn root(&self) -> Self {
        F(self.0.sqrt())
    }
}

fn fs(x: &[f32]) -> Vec<F> {
    x.iter().map(|&v| F(v)).collect()
}


#[test]
fn sorting_is_descending() {
    let bits = |x: &[f32]| -> Vec<u32> { x.iter().map(|v| v.to_bits()).collect() };
    assert_eq!(sort_desc(&bits(&[1.0, -2.0, 3.0, 0.0])), bits(&[3.0, 1.0, 0.0, -2.0]));
    assert!(sort_desc(&[]).is_empty());
    let many: Vec<f32> = (0..100).map(|i| ((i * 37) % 101) as f32).collect();
    let mut want = many.clone();
    want.sort_by(|a, b| b.partial_cmp(a).unwrap());
    assert_eq!(sort_desc(&bits(&many)), bits(&want));
}

#[test]
fn the_last_highest_wins() {
    assert_eq!(argmax(&fs(&[1.0, 3.0, 2.0, 3.0])), 3);
    assert_eq!(argmax(&fs(&[-5.0])), 0);
}

#[test]
fn draws_pick_by_cumulative_share() {
    let p = fs(&[0.1, 0.2, 0.7]);
    assert_eq!(pick(&p, &F(0.0)), 0);
    assert_eq!(pick(&p, &F(0.25)), 1);
    assert_eq!(pick(&p, &F(0.99)), 2);
    // Shares need not sum to one.
    assert_eq!(pick(&fs(&[1.0, 3.0]), &F(0.3)), 1);
    assert_eq!(pick(&fs(&[0.0, 0.0]), &F(0.3)), 0);
}

#[test]
fn uniform_numbers_stay_below_one() {
    assert_eq!(uniform_of::<F>(0), F(0.0));
    assert_eq!(uniform_of::<F>(1 << 31), F(0.5));
    assert!(uniform_of::<F>(u32::MAX).0 < 1.0);
}

fn with(logits: &[f32], t: f32, k: usize, p: f32, m: f32, draw: u32) -> (usize, Vec<F>) {
    let mut x = fs(logits);
    let r = sample_with(&mut x, &F(t), k, &F(p), &F(m), draw);
    (r, x)
}

#[test]
fn low_temperatures_are_greedy() {
    let (r, _) = with(&[1.0, 5.0, 3.0], 0.0, 0, 1.0, 0.0, u32::MAX);
    assert_eq!(r, 1);
}

#[test]
fn top_k_filters() {
    let (_, p) = with(&[1.0, 2.0, 3.0, 4.0], 1.0, 2, 1.0, 0.0, 0);
    assert_eq!(p[0], F(0.0));
    assert_eq!(p[1], F(0.0));
    assert!(p[2].0 > 0.0 && p[3].0 > p[2].0);
    let (r, _) = with(&[1.0, 2.0, 3.0, 4.0], 1.0, 1, 1.0, 0.0, u32::MAX);
    assert_eq!(r, 3);
    let (r, _) = with(&[1.0, 2.0, 3.0, 4.0], 1.0, 1, 1.0, 0.0, 0);
    // Tokens that were filtered out have no share, but a draw of zero meets the first of all.
    assert_eq!(r, 0);
}

#[test]
fn top_p_keeps_the_nucleus() {
    let l: Vec<f32> = [0.6f32, 0.3, 0.1].iter().map(|x| x.ln()).collect();
    let (_, p) = with(&l, 1.0, 0, 0.7, 0.0, 0);
    assert!(p[0].0 > 0.0 && p[1].0 > 0.0);
    assert_eq!(p[2], F(0.0));
    let (_, p) = with(&l, 1.0, 0, 0.5, 0.0, 0);
    assert_eq!((p[1], p[2]), (F(0.0), F(0.0)));
    let (_, p) = with(&l, 1.0, 0, 1.0, 0.0, 0);
    assert!(p[2].0 > 0.0);
}

#[test]
fn min_p_is_relative_to_the_peak() {
    let l: Vec<f32> = [0.6f32, 0.3, 0.1].iter().map(|x| x.ln()).collect();
    let (_, p) = with(&l, 1.0, 0, 1.0, 0.4, 0);
    assert!(p[1].0 > 0.0);
    assert_eq!(p[2], F(0.0));
}

#[test]
fn temperature_flattens() {
    let (_, cold) = with(&[1.0, 2.0], 0.5, 0, 1.0, 0.0, 0);
    let (_, hot) = with(&[1.0, 2.0], 2.0, 0, 1.0, 0.0, 0);
    assert!(cold[1].0 > hot[1].0);
}

#[test]
fn samples_vary() {
    let mut seen = HashSet::new();
    for _ in 0..200 {
        let mut x = fs(&[0.0; 8]);
        let t = sample(&mut x, &F(1.0), 0, &F(1.0), &F(0.0));
        assert!(t < 8);
        seen.insert(t);
    }
    assert!(seen.len() > 1);
}

/// An engine of five tokens whose highest logit is the token after the last one.
struct Counter {
    calls: usize,
    fail_at: usize,
}

impl Engine<F, Vec<i64>, ()> for Counter {
    fn forward(&mut self, ids: &[i64], cache: &mut Vec<i64>, _signal: &mut ()) -> Result<Vec<F>, String> {
        if self.calls == self.fail_at {
            return Err("broken".to_string());
        }
        self.calls += 1;
        let mut out = Vec::new();
        for id in ids {
            cache.push(*id);
            for t in 0..5 {
                out.push(F(if t == (*id + 1) % 5 { 1.0 } else { 0.0 }));
            }
        }
        Ok(out)
    }
}

fn params(max_tokens: usize, eos: &[usize]) -> SampleParams<F> {
    SampleParams {
        max_tokens,
        temperature: F(0.0),
        top_k: 0,
        top_p: F(1.0),
        min_p: F(0.0),
        eos: eos.iter().cloned().collect(),
    }
}

#[test]
fn generation_stops_at_the_limit() {
    let mut e = Counter { calls: 0, fail_at: 99 };
    let mut cache = Vec::new();
    let g = generate(&mut e, &[3, 4], &mut cache, &params(4, &[]), &mut ()).unwrap();
    assert_eq!(g.tokens, vec![0, 1, 2, 3]);
    assert_eq!(cache, vec![3, 4, 0, 1, 2, 3]);
    assert_eq!(g.last_logits, fs(&[0.0, 0.0, 0.0, 0.0, 1.0]));
}

#[test]
fn generation_stops_at_the_end_token() {
    let mut e = Counter { calls: 0, fail_at: 99 };
    let mut cache = Vec::new();
    let g = generate(&mut e, &[0], &mut cache, &params(10, &[3]), &mut ()).unwrap();
    assert_eq!(g.tokens, vec![1, 2]);
    let none = generate(&mut e, &[2], &mut cache, &params(10, &[3]), &mut ()).unwrap();
    assert!(none.tokens.is_empty());
    let zero = generate(&mut e, &[0], &mut cache, &params(0, &[]), &mut ()).unwrap();
    assert!(zero.tokens.is_empty());
}

#[test]
fn generation_without_input_starts_at_zero() {
    let mut e = Counter { calls: 0, fail_at: 99 };
    let mut cache = Vec::new();
    let g = generate(&mut e, &[], &mut cache, &params(2, &[]), &mut ()).unwrap();
    assert_eq!(g.tokens, vec![0, 1]);
}

#[test]
fn engine_errors_end_generation() {
    for fail_at in [0, 2] {
        let mut e = Counter { calls: 0, fail_at };
        let r = generate(&mut e, &[0], &mut Vec::new(), &params(5, &[]), &mut ());
        assert_eq!(r.err(), Some("broken".to_string()));
    }
}

#[test]
fn the_last_row_is_chosen_from() {
    let l = fs(&[9.0, 0.0, 0.0, 1.0, 2.0, 0.0]);
    assert_eq!(last_logits(&l, 2), fs(&[1.0, 2.0, 0.0]));
    assert!(last_logits(&l, 0).is_empty());
    assert_eq!(pick_token(&l, &params(1, &[])), 0);
    assert_eq!(take_logits(Ok(l.clone()), 2, &params(1, &[])).unwrap().1, 1);
    assert_eq!(take_logits(Ok(l), 0, &params(1, &[])).unwrap(), (vec![], 0));
    assert_eq!(
        take_logits::<F>(Err("x".to_string()), 2, &params(1, &[])).err(),
        Some("x".to_string())
    );
}

#[test]
fn benchmark_options() {
    assert_eq!(clamp_experts(0, 8), 1);
    assert_eq!(clamp_experts(5, 8), 5);
    assert_eq!(clamp_experts(9, 8), 8);
    assert_eq!(shader_name(speed_level(true)), "v3-tiled");
    assert_eq!(shader_name(speed_level(false)), "naive");
    assert_eq!(shader_name(1), "fast-simd");
    assert_eq!(spread_experts(4, 256), vec![0, 64, 128, 192]);
    assert_eq!(spread_experts(3, 2), vec![0, 0, 0]);
}

#[test]
fn outputs_are_compared() {
    let d = compare_outputs(&fs(&[1.0, 2.5, 0.0]), &fs(&[1.0, 2.0, 0.0]), 3);
    assert_eq!(d.max_diff, F(0.5));
    assert_eq!(d.max_rel_diff, F(0.25));
    assert_eq!(d.worst_idx, 1);
    assert!(!passes(&d));
    assert!(passes(&compare_outputs(&fs(&[1.001]), &fs(&[1.0]), 1)));
}

fn value(t: &Telemetry<F>, key: &str) -> Option<Vec<F>> {
    t.entries.iter().find(|e| e.0 == key).map(|e| match &e.1 {
        TelemetryValue::Scalar(v) => vec![*v],
        TelemetryValue::List(l) => l.clone(),
    })
}

#[test]
fn telemetry_sums_and_lists() {
    let on = TelemetrySwitch { on: true };
    let off = TelemetrySwitch { on: false };
    let mut t: Telemetry<F> = Telemetry::new();
    timing_add(&off, &mut t, "a", F(1.0));
    assert!(t.entries.is_empty());
    timing_add(&on, &mut t, "a", F(1.0));
    timing_push(&on, &mut t, "b", F(5.0));
    timing_add(&on, &mut t, "a", F(2.0));
    timing_push(&on, &mut t, "b", F(6.0));
    timing_push(&off, &mut t, "b", F(7.0));
    assert_eq!(value(&t, "a"), Some(fs(&[3.0])));
    assert_eq!(value(&t, "b"), Some(fs(&[5.0, 6.0])));
    // A sum takes no list entries, and a list no sums.
    timing_push(&on, &mut t, "a", F(9.0));
    timing_add(&on, &mut t, "b", F(9.0));
    assert_eq!(value(&t, "a"), Some(fs(&[3.0])));
    assert_eq!(value(&t, "b"), Some(fs(&[5.0, 6.0])));
    assert_eq!(t.entries.len(), 2);
    // The names are in order, whatever order they came in.
    timing_add(&on, &mut t, "c", F(1.0));
    timing_push(&on, &mut t, "Z", F(1.0));
    timing_add(&on, &mut t, "aa", F(1.0));
    let names: Vec<&str> = t.entries.iter().map(|e| e.0.as_str()).collect();
    assert_eq!(names, vec!["Z", "a", "aa", "b", "c"]);
    assert_eq!(value(&t, "b"), Some(fs(&[5.0, 6.0])));
}
