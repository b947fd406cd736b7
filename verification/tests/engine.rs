use std::collections::HashSet;

use moe_infer::attention::{KVCache, LinearAttnState};
use moe_infer::cache::{Cache, CacheDims, FullState, LinearState};
use moe_infer::command::{Command, Tensor};
use moe_infer::constants::expert_layout;
use moe_infer::cpu_forward::{step_linear_attention, step_shared_expert};
use moe_infer::cpu_layer::{
    cpu_layer_finish, cpu_layer_forward, cpu_layer_forward_decomposed, cpu_layer_route, plan_expert_reads,
    CpuForwardScratch, LayerState, LayerWeights,
};
use moe_infer::deferred::{DeviceUse, PipelineMode};
use moe_infer::engine::cpu::{moe_combine, moe_experts, moe_finish, moe_front, EngineCPU};
use moe_infer::engine::cpu_engine::{CpuModel, NoSignal, Signal};
use moe_infer::engine::session::CpuSession;
use moe_infer::expert_math::{expert_blob, parts_of, run_expert};
use moe_infer::full_attention::{full_attention_forward, AttnBuffers, AttnSupport, RopePairs};
use moe_infer::generate::{generate, Engine, SampleParams};
use moe_infer::gpu_forward::{
    moe_fallback, moe_layer_forward, route_products, MoeFallback, RouterRead, RouterStart,
};
use moe_infer::linear_attention::{run_recurrence, LinearSupport};
use moe_infer::linear_forward::{
    finish_fused, finish_projection, finish_recurrence, gpu_linear_attention, linear_attention_forward, LinearStart,
};
use moe_infer::linear_program::{LinearBuffers, LinearOffsets, RecurrenceBuffers};
use moe_infer::math_util::norm_epsilon;
use moe_infer::mixed_attention::{
    attend_projected, finish_full_attention, mixed_full_attention_forward, AttnNext, AttnStart,
    QkvBuffers,
};
use moe_infer::moe_program::{RouterBuffers, RouterSupport};
use moe_infer::scalar::Scalar;
use moe_infer::weights::{AttnWeights, LayerDims, LinearWeights, MoeWeights, QuantMat};

#[derive(Clone, Copy, Debug, PartialEq)]
struct F(f32);

impl Scalar for F {
    fn of_bits(bits: u32) -> Self {
        F(f32::from_bits(bits))
    }
    fn bits(&self) -> u32 {
        self.0.to_bits()
    }
    fn of_usize(n: usize) -> Self {
        F(n as f32)
    }
    fn dup(&self) -> Self {
        *self
    }
    fn plus(&self, other: &Self) -> Self {
        F(self.0 + other.0)
    }
    fn minus(&self, other: &Self) -> Self {
        F(self.0 - other.0)
    }
    fn times(&self, other: &Self) -> Self {
        F(self.0 * other.0)
    }
    fn over(&self, other: &Self) -> Self {
        F(self.0 / other.0)
    }
    fn negated(&self) -> Self {
        F(-self.0)
    }
    fn larger(&self, other: &Self) -> Self {
        F(self.0.max(other.0))
    }
    fn exponential(&self) -> Self {
        F(self.0.exp())
    }
    fn logarithm(&self) -> Self {
        F(self.0.ln())
    }
    fn root(&self) -> Self {
        F(self.0.sqrt())
    }
}

fn fs(x: &[f32]) -> Vec<F> {
    x.iter().map(|&v| F(v)).collect()
}

fn raw(x: &[F]) -> Vec<f32> {
    x.iter().map(|v| v.0).collect()
}

fn bf(x: f32) -> u16 {
    (x.to_bits() >> 16) as u16
}


// A model of four small layers with made-up weights.

const HD: usize = 64;
const VOCAB: usize = 16;

fn dims() -> LayerDims {
    LayerDims {
        hidden_dim: HD,
        num_heads: 2,
        num_kv_heads: 1,
        head_dim: 32,
        rotary_dim: 16,
        num_experts: 4,
        experts_per_tok: 2,
        moe_inter: 64,
        shared_inter: 64,
        num_v_heads: 2,
        num_k_heads: 1,
        key_dim: 32,
        value_dim: 32,
        total_key: 32,
        total_value: 64,
        conv_dim: 128,
        conv_kernel: 4,
        group_size: 64,
    }
}

struct Rng(u64);

impl Rng {
    fn next(&mut self) -> u32 {
        self.0 = self.0.wrapping_mul(6364136223846793005).wrapping_add(1442695040888963407);
        (self.0 >> 33) as u32
    }
    fn unit(&mut self) -> f32 {
        (self.next() % 2001) as f32 / 1000.0 - 1.0
    }
    fn halves(&mut self, n: usize, center: f32, spread: f32) -> Vec<u16> {
        (0..n).map(|_| bf(center + spread * self.unit())).collect()
    }
}

struct Mat {
    w: Vec<u32>,
    s: Vec<u16>,
    b: Vec<u16>,
    rows: usize,
    cols: usize,
}

impl Mat {
    fn new(rng: &mut Rng, rows: usize, cols: usize) -> Mat {
        let w = (0..rows * cols / 8).map(|_| rng.next() ^ (rng.next() << 8)).collect();
        let groups = rows * cols / 64;
        let s = rng.halves(groups, 0.02, 0.005);
        let b = s.iter().map(|&h| bf(-7.5 * f32::from_bits((h as u32) << 16))).collect();
        Mat { w, s, b, rows, cols }
    }
    fn quant(&self) -> QuantMat<'_> {
        QuantMat { w: &self.w, scales: &self.s, biases: &self.b }
    }
    fn at(&self, r: usize, c: usize) -> f32 {
        let nib = (self.w[(r * self.cols + c) / 8] >> (4 * (c % 8))) & 15;
        let g = r * (self.cols / 64) + c / 64;
        let half = |h: u16| f32::from_bits((h as u32) << 16);
        nib as f32 * half(self.s[g]) + half(self.b[g])
    }
    fn times(&self, x: &[f32]) -> Vec<f32> {
        (0..self.rows).map(|r| (0..self.cols).map(|c| self.at(r, c) * x[c]).sum()).collect()
    }
    fn bytes(&self) -> Vec<u8> {
        let mut v = Vec::new();
        for w in &self.w {
            v.extend_from_slice(&w.to_le_bytes());
        }
        for h in self.s.iter().chain(&self.b) {
            v.extend_from_slice(&h.to_le_bytes());
        }
        v
    }
}

struct Layer {
    in_norm: Vec<u16>,
    post_norm: Vec<u16>,
    q: Mat,
    k: Mat,
    v: Mat,
    o: Mat,
    q_norm: Vec<u16>,
    k_norm: Vec<u16>,
    qkv: Mat,
    z: Mat,
    b: Mat,
    a: Mat,
    out: Mat,
    conv: Vec<u16>,
    a_log: Vec<u32>,
    dt: Vec<u16>,
    norm: Vec<u16>,
    gate: Mat,
    sg: Mat,
    su: Mat,
    sd: Mat,
    seg: Mat,
    experts: Vec<[Mat; 3]>,
    file: Vec<u8>,
}

impl Layer {
    fn new(rng: &mut Rng) -> Layer {
        let experts: Vec<[Mat; 3]> = (0..4)
            .map(|_| [Mat::new(rng, 64, HD), Mat::new(rng, 64, HD), Mat::new(rng, HD, 64)])
            .collect();
        let mut file = Vec::new();
        for e in &experts {
            for m in e {
                file.extend(m.bytes());
            }
        }
        Layer {
            in_norm: rng.halves(HD, 1.0, 0.2),
            post_norm: rng.halves(HD, 1.0, 0.2),
            q: Mat::new(rng, 128, HD),
            k: Mat::new(rng, 32, HD),
            v: Mat::new(rng, 32, HD),
            o: Mat::new(rng, HD, 64),
            q_norm: rng.halves(32, 1.0, 0.2),
            k_norm: rng.halves(32, 1.0, 0.2),
            qkv: Mat::new(rng, 128, HD),
            z: Mat::new(rng, 64, HD),
            b: Mat::new(rng, 2, HD),
            a: Mat::new(rng, 2, HD),
            out: Mat::new(rng, HD, 64),
            conv: rng.halves(128 * 4, 0.3, 0.3),
            a_log: vec![0.1f32.to_bits(), 0.3f32.to_bits()],
            dt: vec![bf(0.1), bf(-0.2)],
            norm: rng.halves(32, 1.0, 0.2),
            gate: Mat::new(rng, 4, HD),
            sg: Mat::new(rng, 64, HD),
            su: Mat::new(rng, 64, HD),
            sd: Mat::new(rng, HD, 64),
            seg: Mat::new(rng, 1, HD),
            experts,
            file,
        }
    }
    fn weights(&self) -> LayerWeights<'_> {
        LayerWeights {
            input_norm: Some(&self.in_norm),
            post_attn_norm: Some(&self.post_norm),
            attn: AttnWeights {
                q: Some(self.q.quant()),
                k: Some(self.k.quant()),
                v: Some(self.v.quant()),
                o: Some(self.o.quant()),
                q_norm: Some(&self.q_norm),
                k_norm: Some(&self.k_norm),
            },
            linear: LinearWeights {
                qkv: Some(self.qkv.quant()),
                z: Some(self.z.quant()),
                b: Some(self.b.quant()),
                a: Some(self.a.quant()),
                out_proj: Some(self.out.quant()),
                conv1d: Some(&self.conv),
                a_log: Some(&self.a_log),
                dt_bias: Some(&self.dt),
                norm: Some(&self.norm),
            },
            moe: MoeWeights {
                gate: Some(self.gate.quant()),
                shared_gate: Some(self.sg.quant()),
                shared_up: Some(self.su.quant()),
                shared_down: Some(self.sd.quant()),
                shared_expert_gate: Some(self.seg.quant()),
            },
        }
    }
}

fn half(h: u16) -> f32 {
    f32::from_bits((h as u32) << 16)
}

fn sig(x: f32) -> f32 {
    1.0 / (1.0 + (-x).exp())
}

fn norm_by(x: &[f32], w: &[u16]) -> Vec<f32> {
    let ms: f32 = x.iter().map(|v| v * v).sum::<f32>() / x.len() as f32;
    let inv = 1.0 / (ms + 1e-6).sqrt();
    x.iter().zip(w).map(|(v, w)| v * inv * half(*w)).collect()
}

fn tables(pos: usize) -> (Vec<f32>, Vec<f32>) {
    let angle = |i: usize| pos as f32 / 10000f32.powf(2.0 * i as f32 / 16.0);
    ((0..8).map(|i| angle(i).cos()).collect(), (0..8).map(|i| angle(i).sin()).collect())
}

fn turn(h: &mut [f32], cos: &[f32], sin: &[f32]) {
    for i in 0..8 {
        let (a, b) = (h[i], h[i + 8]);
        h[i] = a * cos[i] - b * sin[i];
        h[i + 8] = a * sin[i] + b * cos[i];
    }
}

/// The state of a layer, computed on the side.
#[derive(Clone, Default)]
struct Side {
    keys: Vec<Vec<f32>>,
    vals: Vec<Vec<f32>>,
    conv: Vec<Vec<f32>>,
    ssm: Vec<f32>,
}

fn side_full(l: &Layer, hidden: &[f32], s: &mut Side, pos: usize) -> Vec<f32> {
    let x = norm_by(hidden, &l.in_norm);
    let qg = l.q.times(&x);
    let (cos, sin) = tables(pos);
    let mut k = norm_by(&l.k.times(&x), &l.k_norm);
    turn(&mut k, &cos, &sin);
    s.keys.push(k);
    s.vals.push(l.v.times(&x));
    let mut attn = Vec::new();
    for h in 0..2 {
        let mut q = norm_by(&qg[h * 64..h * 64 + 32], &l.q_norm);
        turn(&mut q, &cos, &sin);
        let gate = &qg[h * 64 + 32..h * 64 + 64];
        let scores: Vec<f32> = s
            .keys
            .iter()
            .map(|k| k.iter().zip(&q).map(|(a, b)| a * b).sum::<f32>() / 32f32.sqrt())
            .collect();
        let max = scores.iter().cloned().fold(f32::NEG_INFINITY, f32::max);
        let exps: Vec<f32> = scores.iter().map(|v| (v - max).exp()).collect();
        let sum: f32 = exps.iter().sum();
        for d in 0..32 {
            let v: f32 = exps.iter().zip(&s.vals).map(|(e, v)| e / sum * v[d]).sum();
            attn.push(v * sig(gate[d]));
        }
    }
    let o = l.o.times(&attn);
    hidden.iter().zip(o).map(|(a, b)| a + b).collect()
}

fn side_linear(l: &Layer, hidden: &[f32], s: &mut Side) -> Vec<f32> {
    let x = norm_by(hidden, &l.in_norm);
    let (qkv, z, b, a) = (l.qkv.times(&x), l.z.times(&x), l.b.times(&x), l.a.times(&x));
    let mut conv = Vec::new();
    for c in 0..128 {
        let mut acc = qkv[c] * half(l.conv[c * 4 + 3]);
        for t in 0..3 {
            if s.conv.len() >= 3 - t {
                acc += s.conv[s.conv.len() - (3 - t)][c] * half(l.conv[c * 4 + t]);
            }
        }
        conv.push(acc * sig(acc));
    }
    s.conv.push(qkv);
    let inv = 1.0 / 32f32.sqrt();
    let bare = |x: &[f32], f: f32| -> Vec<f32> {
        let ms: f32 = x.iter().map(|v| v * v).sum::<f32>() / 32.0;
        let i = 1.0 / (ms + 1e-6).sqrt();
        x.iter().map(|v| v * i * f).collect()
    };
    let q = bare(&conv[..32], inv * inv);
    let k = bare(&conv[32..64], inv);
    let v = &conv[64..];
    if s.ssm.is_empty() {
        s.ssm = vec![0.0; 2 * 32 * 32];
    }
    let mut gated = Vec::new();
    for h in 0..2 {
        let soft = (1.0 + (a[h] + half(l.dt[h])).exp()).ln();
        let g = (-f32::from_bits(l.a_log[h]).exp() * soft).exp();
        let beta = sig(b[h]);
        let mut vals = Vec::new();
        for vi in 0..32 {
            let row = &mut s.ssm[(h * 32 + vi) * 32..(h * 32 + vi + 1) * 32];
            row.iter_mut().for_each(|r| *r *= g);
            let mem: f32 = row.iter().zip(&k).map(|(r, k)| r * k).sum();
            let delta = (v[h * 32 + vi] - mem) * beta;
            row.iter_mut().zip(&k).for_each(|(r, k)| *r += k * delta);
            vals.push(row.iter().zip(&q).map(|(r, q)| r * q).sum::<f32>());
        }
        for (i, n) in norm_by(&vals, &l.norm).into_iter().enumerate() {
            let zi = z[h * 32 + i];
            gated.push(n * zi * sig(zi));
        }
    }
    let o = l.out.times(&gated);
    hidden.iter().zip(o).map(|(a, b)| a + b).collect()
}

fn side_moe(l: &Layer, hidden: &[f32]) -> Vec<f32> {
    let x = norm_by(hidden, &l.post_norm);
    let logits = l.gate.times(&x);
    let max = logits.iter().cloned().fold(f32::NEG_INFINITY, f32::max);
    let exps: Vec<f32> = logits.iter().map(|v| (v - max).exp()).collect();
    let mut order: Vec<usize> = (0..4).collect();
    order.sort_by(|a, b| exps[*b].partial_cmp(&exps[*a]).unwrap());
    let total = exps[order[0]] + exps[order[1]];
    let act = |g: &[f32], u: &[f32]| -> Vec<f32> {
        g.iter().zip(u).map(|(g, u)| g * sig(*g) * u).collect()
    };
    let mut out = hidden.to_vec();
    for &e in &order[..2] {
        let [g, u, d] = &l.experts[e];
        let y = d.times(&act(&g.times(&x), &u.times(&x)));
        for i in 0..HD {
            out[i] += exps[e] / total * y[i];
        }
    }
    let shared = l.sd.times(&act(&l.sg.times(&x), &l.su.times(&x)));
    let w = sig(l.seg.times(&x)[0]);
    for i in 0..HD {
        out[i] += w * shared[i];
    }
    out
}

fn near(a: &[F], b: &[f32]) {
    assert_eq!(a.len(), b.len());
    for (x, y) in a.iter().zip(b) {
        assert!((x.0 - y).abs() <= 2e-3 * (1.0 + y.abs()), "{} {}", x.0, y);
    }
}

struct Model {
    embed: Mat,
    head: Mat,
    norm: Vec<u16>,
    layers: Vec<Layer>,
}

fn model() -> Model {
    let mut rng = Rng(7);
    Model {
        embed: Mat::new(&mut rng, VOCAB, HD),
        head: Mat::new(&mut rng, VOCAB, HD),
        norm: rng.halves(HD, 1.0, 0.2),
        layers: (0..4).map(|_| Layer::new(&mut rng)).collect(),
    }
}

fn expert_size() -> usize {
    3 * (64 * 64 / 2 + 2 * 64 * 2)
}

fn cpu_model(m: &Model) -> CpuModel<'_> {
    CpuModel {
        embed: Some(m.embed.quant()),
        embed_cols: HD / 8,
        embed_groups: 1,
        layers: m.layers.iter().map(|l| l.weights()).collect(),
        final_norm: Some(&m.norm),
        lm_head: Some(m.head.quant()),
        experts: m.layers.iter().map(|l| l.file.as_slice()).collect(),
        expert_size: expert_size(),
    }
}

fn engine() -> EngineCPU {
    EngineCPU {
        dims: dims(),
        num_layers: 4,
        vocab_size: VOCAB,
        parts: parts_of(&expert_layout(HD, 64, 64)),
    }
}

fn cache() -> Cache<F, u32> {
    Cache::new(&CacheDims {
        num_layers: 4,
        num_kv_heads: 1,
        head_dim: 32,
        linear_num_v_heads: 2,
        linear_num_k_heads: 1,
        linear_total_key: 32,
        linear_total_value: 64,
        linear_conv_dim: 128,
    })
}

fn all_tables(from: usize, n: usize) -> (Vec<Vec<F>>, Vec<Vec<F>>) {
    (0..n).map(|i| tables(from + i)).map(|(c, s)| (fs(&c), fs(&s))).unzip()
}

#[test]
fn the_cpu_engine_computes_the_model() {
    let m = model();
    let ids = [3i64, 1, 15, 3, 0];
    let (cos, sin) = all_tables(0, ids.len());
    let mut c = cache();
    assert_eq!(expert_layout(HD, 64, 64).expert_size_4bit, expert_size());
    let logits = engine().forward(&cpu_model(&m), &ids, &mut c, &cos, &sin, &mut NoSignal).unwrap();
    assert_eq!(c.pos, ids.len());
    assert_eq!(logits.len(), ids.len() * VOCAB);

    let mut sides = vec![Side::default(); 4];
    for (t, id) in ids.iter().enumerate() {
        let mut h: Vec<f32> = (0..HD).map(|i| m.embed.at(*id as usize, i)).collect();
        for (i, l) in m.layers.iter().enumerate() {
            h = if i == 3 {
                side_full(l, &h, &mut sides[i], t)
            } else {
                side_linear(l, &h, &mut sides[i])
            };
            h = side_moe(l, &h);
        }
        near(&logits[t * VOCAB..(t + 1) * VOCAB], &m.head.times(&norm_by(&h, &m.norm)));
    }
}

#[test]
fn tokens_can_be_split_over_calls() {
    let m = model();
    let e = engine();
    let (cos, sin) = all_tables(0, 4);
    let mut whole = cache();
    let all = e.forward(&cpu_model(&m), &[1, 2, 3, 4], &mut whole, &cos, &sin, &mut NoSignal).unwrap();
    let mut parts = cache();
    let mut got = e
        .forward(&cpu_model(&m), &[1, 2], &mut parts, &cos[..2], &sin[..2], &mut NoSignal)
        .unwrap();
    got.extend(
        e.forward(&cpu_model(&m), &[3, 4], &mut parts, &cos[2..], &sin[2..], &mut NoSignal).unwrap(),
    );
    assert_eq!(got, all);
    assert_eq!(parts.pos, whole.pos);
    assert_eq!(parts.lin(0).ssm_state, whole.lin(0).ssm_state);
    assert_eq!(parts.full(3).k_cache, whole.full(3).k_cache);
}

struct StopAt(usize);

impl Signal for StopAt {
    fn raised(&mut self) -> bool {
        if self.0 == 0 {
            return true;
        }
        self.0 -= 1;
        false
    }
}

#[test]
fn a_signal_interrupts_the_engine() {
    let m = model();
    let (cos, sin) = all_tables(0, 2);
    let mut c = cache();
    let r = engine().forward(&cpu_model(&m), &[1, 2], &mut c, &cos, &sin, &mut StopAt(1));
    assert_eq!(r.unwrap_err(), "interrupted");
    assert_eq!(c.pos, 1);
    let none = engine().forward(&cpu_model(&m), &[], &mut c, &[], &[], &mut StopAt(0)).unwrap();
    assert!(none.is_empty());
    // The cache is that of the tokens that were completed.
    let mut whole = cache();
    engine().forward(&cpu_model(&m), &[1], &mut whole, &cos[..1], &sin[..1], &mut NoSignal).unwrap();
    assert_eq!(c.lin(0).ssm_state, whole.lin(0).ssm_state);
    assert_eq!(c.full(3).len, whole.full(3).len);
    // The signal is asked once for each of the two tokens: four layers each.
    let mut signal = StopAt(9);
    engine().forward(&cpu_model(&m), &[1, 2], &mut cache(), &cos, &sin, &mut signal).unwrap();
    assert_eq!(signal.0, 7);
}

fn session(m: &Model, positions: usize) -> CpuSession<'_, F> {
    let (cos, sin) = all_tables(0, positions);
    CpuSession { engine: engine(), model: cpu_model(m), cos, sin }
}

fn greedy(max_tokens: usize) -> SampleParams<F> {
    SampleParams {
        max_tokens,
        temperature: F(0.0),
        top_k: 0,
        top_p: F(1.0),
        min_p: F(0.0),
        eos: HashSet::new(),
    }
}

#[test]
fn tokens_are_generated_with_the_engine() {
    let m = model();
    let mut s = session(&m, 8);
    let mut c = cache();
    let g = generate(&mut s, &[1, 2], &mut c, &greedy(3), &mut NoSignal).unwrap();
    assert_eq!(g.tokens.len(), 3);
    assert_eq!(g.record().tokens_generated, 3);
    assert_eq!(c.pos, 5);
    // All tokens at once give the same last logits.
    let ids: Vec<i64> = [1, 2].iter().chain(&g.tokens).cloned().collect();
    let (cos, sin) = all_tables(0, 5);
    let all = engine().forward(&cpu_model(&m), &ids, &mut cache(), &cos, &sin, &mut NoSignal).unwrap();
    assert_eq!(g.last_logits[..], all[all.len() - g.last_logits.len()..]);
    let r = generate(&mut s, &[1, 2], &mut cache(), &greedy(3), &mut StopAt(3));
    assert_eq!(r.err(), Some("interrupted".to_string()));
}

#[test]
fn a_session_refuses_what_it_cannot_process() {
    let m = model();
    let mut s = session(&m, 2);
    let mut c = cache();
    assert!(s.is_ready(&c, &[1, 2]));
    assert!(!s.is_ready(&c, &[1, 2, 3]));
    assert!(!s.is_ready(&c, &[-1]));
    assert!(!s.is_ready(&c, &[1_000_000]));
    let r: Result<Vec<F>, String> = s.forward(&[1, 2, 3], &mut c, &mut NoSignal);
    assert_eq!(r.err(), Some("the model cannot process these tokens".to_string()));
    assert_eq!(c.pos, 0);
    let none: Vec<F> = s.forward(&[], &mut c, &mut NoSignal).unwrap();
    assert!(none.is_empty());
    s.model.experts.pop();
    assert!(!s.is_ready(&c, &[1]));
}

#[test]
fn the_shared_expert_is_scaled_by_the_score() {
    let m = model();
    let l = &m.layers[0];
    let w = l.weights();
    let h_post = fs(&[0.25; HD]);
    let act = moe_front(&dims(), &w.moe, &h_post).shared_act;
    let mut out = fs(&[5.0; HD + 1]);
    step_shared_expert(&dims(), &w.moe, &h_post, &F(-3.0), &mut out);
    let raw_out = l.sd.times(&raw(&act));
    for i in 0..HD {
        assert!((out[i].0 - raw_out[i] * -3.0).abs() < 1e-3);
    }
    assert_eq!(out[HD], F(5.0));
}

#[test]
fn missing_expert_bytes_are_skipped() {
    let m = model();
    let l = &m.layers[0];
    let w = l.weights();
    let h_post = fs(&[0.25; HD]);
    let front = moe_front(&dims(), &w.moe, &h_post);
    let parts = parts_of(&expert_layout(HD, 64, 64));
    let blobs: Vec<Option<Vec<u8>>> =
        front.routing.indices.iter().map(|i| expert_blob(&l.file, *i, expert_size())).collect();
    let one = vec![blobs[0].clone(), None];
    let sum = moe_experts(&dims(), &parts, &one, &front.routing.weights, &h_post);
    let mut out = fs(&[0.0; HD]);
    run_expert(blobs[0].as_ref().unwrap(), &parts, &h_post, &mut out, HD, 64, 64);
    for i in 0..HD {
        assert_eq!(sum[i], F(0.0 + out[i].0 * front.routing.weights[0].0));
    }
    // Everything together, in one call and in parts.
    let mut a = fs(&[1.0; HD]);
    moe_finish(&dims(), &w.moe, &parts, &blobs, &front, &h_post, &mut a);
    let both = moe_experts(&dims(), &parts, &blobs, &front.routing.weights, &h_post);
    let shared = fs(&l.sd.times(&raw(&front.shared_act)));
    let mut b = fs(&[1.0; HD]);
    moe_combine(&both, &shared, &front.shared_gate_score, &mut b, HD);
    near(&a, &raw(&b));
}

fn rope_all() -> (Vec<F>, Vec<F>) {
    // Pairs of neighbours turn by the same tables, one entry a pair.
    let (c, s) = tables(0);
    (fs(&c), fs(&s))
}

#[test]
fn a_layer_in_steps_equals_the_layer() {
    let m = model();
    let l = &m.layers[1];
    let w = l.weights();
    let d = dims();
    let parts = parts_of(&expert_layout(HD, 64, 64));
    let eps: F = norm_epsilon();
    let (cos, sin) = rope_all();
    let start: Vec<f32> = (0..HD).map(|i| (i as f32 * 0.37).sin()).collect();
    for full in [false, true] {
        let state = || {
            if full {
                LayerState::Full(KVCache::new(8, 1, 32))
            } else {
                LayerState::Linear(LinearAttnState::new(4, 128, 2, 32, 32))
            }
        };
        let mut h1 = fs(&start);
        let mut s1 = state();
        let mut scratch1 = CpuForwardScratch::new(&d);
        cpu_layer_forward(
            &d, &w, &parts, Some(&l.file), expert_size(), &mut s1, &cos, &sin, &eps, &mut h1, &mut scratch1,
        );

        let mut h2 = fs(&start);
        let mut s2 = state();
        let mut scratch2 = CpuForwardScratch::new(&d);
        let r = cpu_layer_route(&d, &w, &mut h2, &mut s2, &cos, &sin, &eps, &mut scratch2);
        let offsets = plan_expert_reads(&r.expert_indices, expert_size());
        let blobs: Vec<Option<Vec<u8>>> = offsets
            .iter()
            .map(|o| Some(l.file[*o as usize..*o as usize + expert_size()].to_vec()))
            .collect();
        cpu_layer_finish(
            &d, &w, &parts, &blobs, &r.expert_weights, 2, &r.shared_gate_score, &mut h2, &mut scratch2,
        );
        assert_eq!(h1, h2);

        let mut h3 = fs(&start);
        let mut s3 = state();
        let mut scratch3 = CpuForwardScratch::new(&d);
        cpu_layer_forward_decomposed(
            &d, &w, &parts, &mut s3, &cos, &sin, &eps, &blobs, &r.expert_weights, 2, &mut h3, &mut scratch3,
        );
        assert_eq!(h1, h3);

        if !full {
            let want = side_moe(l, &side_linear(l, &start, &mut Side::default()));
            near(&h1, &want);
        }

        // Without a file only the shared expert is added.
        let mut h4 = fs(&start);
        let mut s4 = state();
        let mut scratch4 = CpuForwardScratch::new(&d);
        cpu_layer_forward(
            &d, &w, &parts, None, expert_size(), &mut s4, &cos, &sin, &eps, &mut h4, &mut scratch4,
        );
        assert_ne!(h4, h1);
    }
}

// Layers between CPU and device; buffers are numbers.

fn linear_buffers() -> LinearBuffers<u32> {
    LinearBuffers {
        input: 0, qkv: 1, z: 2, beta: 3, alpha: 4, conv_state: 5, delta_state: 6, conv_output: 7,
        g_decay: 8, beta_gate: 9, delta_output: 10, gated: 11, weights: 12, o_proj: 13, residual: 14,
        hidden_out: 15,
    }
}

fn recurrence_buffers() -> RecurrenceBuffers<u32> {
    RecurrenceBuffers {
        q: 20, k: 21, v: 22, z: 23, alpha: 24, beta: 25, a_log: 26, dt_bias: 27, g_decay: 28,
        beta_gate: 29, state: 30, output: 31, gated: 32, norm: Some(33),
    }
}

fn offsets() -> LinearOffsets {
    LinearOffsets { conv1d: Some(100), a_log: Some(200), dt_bias: None, norm: Some(400) }
}

fn linear_support() -> LinearSupport {
    LinearSupport {
        mode: PipelineMode::Gpu,
        has_context: false,
        has_weights: false,
        fused_requested: false,
        split_requested: false,
        split_slots: 4,
        conv_output: true,
        conv_states: 3,
        delta_states: 3,
        batch_slots: 8,
        residual_kernel: true,
    }
}

#[test]
fn linear_attention_without_a_device() {
    let m = model();
    let l = &m.layers[2];
    let w = l.weights();
    let start: Vec<f32> = (0..HD).map(|i| (i as f32 * 0.11).cos()).collect();
    let mut h = fs(&start);
    let mut s: LinearState<F, u32> = LinearState::new(2, 32, 32, 128);
    let r = linear_attention_forward(
        &linear_support(), &dims(), &w.linear, w.input_norm, 2, 2, &mut h, &mut s,
        &linear_buffers(), &recurrence_buffers(), &offsets(), false,
    );
    assert!(matches!(r, LinearStart::Done));
    near(&h, &side_linear(l, &start, &mut Side::default()));
}

/// Heads of 128, as the device's recurrence wants them.
fn wide() -> LayerDims {
    LayerDims { num_v_heads: 1, key_dim: 128, value_dim: 128, total_key: 128, total_value: 128, conv_dim: 384, ..dims() }
}

struct Wide {
    qkv: Mat,
    z: Mat,
    b: Mat,
    a: Mat,
    out: Mat,
    conv: Vec<u16>,
    norm: Vec<u16>,
    in_norm: Vec<u16>,
}

impl Wide {
    fn new() -> Wide {
        let mut rng = Rng(11);
        Wide {
            qkv: Mat::new(&mut rng, 384, HD),
            z: Mat::new(&mut rng, 128, HD),
            b: Mat::new(&mut rng, 1, HD),
            a: Mat::new(&mut rng, 1, HD),
            out: Mat::new(&mut rng, HD, 128),
            conv: rng.halves(384 * 4, 0.3, 0.3),
            norm: rng.halves(128, 1.0, 0.2),
            in_norm: rng.halves(HD, 1.0, 0.2),
        }
    }
    fn weights(&self) -> LinearWeights<'_> {
        LinearWeights {
            qkv: Some(self.qkv.quant()),
            z: Some(self.z.quant()),
            b: Some(self.b.quant()),
            a: Some(self.a.quant()),
            out_proj: Some(self.out.quant()),
            conv1d: Some(&self.conv),
            a_log: None,
            dt_bias: None,
            norm: Some(&self.norm),
        }
    }
}

#[test]
fn a_recurrence_on_the_device_ends_as_on_the_cpu() {
    let wd = Wide::new();
    let w = wd.weights();
    let d = wide();
    let start: Vec<f32> = (0..HD).map(|i| (i as f32 * 0.11).cos()).collect();
    let mut h1 = fs(&start);
    let mut s1: LinearState<F, u32> = LinearState::new(1, 128, 128, 384);
    linear_attention_forward(
        &linear_support(), &d, &w, Some(&wd.in_norm), 0, 0, &mut h1, &mut s1, &linear_buffers(),
        &recurrence_buffers(), &offsets(), false,
    );
    let with_device = LinearSupport { has_context: true, has_weights: true, ..linear_support() };
    let mut h2 = fs(&start);
    let mut s2: LinearState<F, u32> = LinearState::new(1, 128, 128, 384);
    s2.ssm_state_gpu = Some(77);
    let r = linear_attention_forward(
        &with_device, &d, &w, Some(&wd.in_norm), 0, 0, &mut h2, &mut s2, &linear_buffers(),
        &recurrence_buffers(), &offsets(), false,
    );
    match r {
        LinearStart::DeviceRecurrence { inputs, residual, commands, read } => {
            assert_eq!(read, 32);
            assert_eq!(s2.ssm_state_gpu, Some(77));
            assert!(!commands.is_empty());
            assert_eq!(raw(&residual), start);
            // The device's part, done here.
            let mut ssm = s2.ssm_state.clone();
            let gated = run_recurrence(&d, &w, &inputs, &mut ssm);
            let back = finish_recurrence(&d, 0, &ssm, &mut s2, &linear_buffers());
            assert!(back.iter().any(|c| matches!(c, Command::Project { tensor: Tensor::OutProj(0), .. })));
            let attn_out = fs(&wd.out.times(&raw(&gated)));
            finish_projection(&d, &residual, &attn_out, &mut h2);
        }
        _ => panic!("another path"),
    }
    near(&h1, &raw(&h2));
    assert_eq!(s1.conv_state, s2.conv_state);
    assert_eq!(s1.ssm_state, s2.ssm_state);
}

#[test]
fn other_heads_are_projected_back_on_the_device() {
    let m = model();
    let l = &m.layers[2];
    let w = l.weights();
    let start: Vec<f32> = (0..HD).map(|i| (i as f32 * 0.11).cos()).collect();
    let mut h = fs(&start);
    let mut s: LinearState<F, u32> = LinearState::new(2, 32, 32, 128);
    let with_device = LinearSupport { has_context: true, has_weights: true, ..linear_support() };
    let r = linear_attention_forward(
        &with_device, &dims(), &w.linear, w.input_norm, 2, 2, &mut h, &mut s, &linear_buffers(),
        &recurrence_buffers(), &offsets(), false,
    );
    match r {
        LinearStart::ProjectBack { gated, residual, commands } => {
            assert_eq!(raw(&h), start);
            assert!(commands.iter().any(|c| matches!(c, Command::Project { tensor: Tensor::OutProj(2), .. })));
            let attn_out = fs(&l.out.times(&raw(&gated)));
            finish_projection(&dims(), &residual, &attn_out, &mut h);
        }
        _ => panic!("another path"),
    }
    near(&h, &side_linear(l, &start, &mut Side::default()));
}

#[test]
fn fused_and_split_layers_leave_the_work_to_the_device() {
    let wd = Wide::new();
    let w = wd.weights();
    let d = wide();
    let base = LinearSupport { has_context: true, has_weights: true, ..linear_support() };
    let mut h = fs(&[0.5; HD]);
    let mut s: LinearState<F, u32> = LinearState::new(1, 128, 128, 384);
    s.conv_state[384] = F(3.0);
    let r = linear_attention_forward(
        &LinearSupport { fused_requested: true, ..base }, &d, &w, None, 0, 1, &mut h, &mut s,
        &linear_buffers(), &recurrence_buffers(), &offsets(), false,
    );
    match r {
        LinearStart::Fused { normed, residual, commands } => {
            // Without norm weights the hidden state is passed on.
            assert_eq!(normed, residual);
            assert!(!commands.is_empty());
        }
        _ => panic!("another path"),
    }
    // The convolution state moved on, with zeros behind it.
    assert_eq!(s.conv_state[0], F(3.0));
    assert!(s.conv_state[768..].iter().all(|x| *x == F(0.0)));
    finish_fused(&d, &fs(&[7.0; HD]), &mut h);
    assert_eq!(h, fs(&[7.0; HD]));

    let split = LinearSupport { split_requested: true, ..base };
    let (r, write) = gpu_linear_attention(
        &split, &d, &w, Some(&wd.in_norm), 0, 1, &mut h, &mut s, &linear_buffers(),
        &recurrence_buffers(), &offsets(), true, Some(99),
    );
    assert!(!write);
    assert!(matches!(r, LinearStart::Split { .. }));
    let (_, write) = gpu_linear_attention(
        &split, &d, &w, Some(&wd.in_norm), 0, 1, &mut h, &mut s, &linear_buffers(),
        &recurrence_buffers(), &offsets(), false, Some(99),
    );
    assert!(write);
    // A state that the device does not hold runs its recurrence from the CPU.
    let r = linear_attention_forward(
        &split, &d, &w, None, 0, 3, &mut h, &mut s, &linear_buffers(), &recurrence_buffers(),
        &offsets(), false,
    );
    assert!(matches!(r, LinearStart::DeviceRecurrence { .. }));
}

fn attn_support() -> AttnSupport {
    AttnSupport {
        mode: PipelineMode::Gpu,
        has_context: true,
        has_weights: true,
        scores_kernel: true,
        softmax_kernel: true,
        values_kernel: false,
        min_seq_len: 0,
    }
}

fn attn_buffers() -> AttnBuffers<u32> {
    AttnBuffers { q: 1, q_gate: 2, k_cache: 3, v_cache: 4, scores: 5, out: 6, hidden: 7 }
}

#[test]
fn full_attention_with_a_device_ends_as_without() {
    let m = model();
    let l = &m.layers[3];
    let w = l.weights();
    let d = dims();
    let (c, s) = tables(0);
    let (cos, sin) = (fs(&c), fs(&s));
    let start: Vec<f32> = (0..HD).map(|i| (i as f32 * 0.21).sin()).collect();
    let mut h1 = fs(&start);
    let mut kv1: FullState<F> = FullState::new(4, 32);
    full_attention_forward(&d, &w.attn, w.input_norm, RopePairs::Halves, &mut h1, &mut kv1, &cos, &sin);
    near(&h1, &side_full(l, &start, &mut Side::default(), 0));

    let bufs = QkvBuffers { x: 10u32, q: 11, k: 12, v: 13 };
    let cpu = AttnSupport { has_context: false, ..attn_support() };
    let (q_proj, k, v) =
        match mixed_full_attention_forward(&cpu, &d, &w.attn, w.input_norm, 3, &fs(&start), &bufs) {
            AttnStart::Projected { q_proj, k, v } => (q_proj, k, v),
            _ => panic!("another path"),
        };
    match mixed_full_attention_forward(&attn_support(), &d, &w.attn, w.input_norm, 3, &fs(&start), &bufs) {
        AttnStart::Project { normed, commands } => {
            near(&normed, &norm_by(&start, &l.in_norm));
            assert!(!commands.is_empty());
        }
        _ => panic!("another path"),
    }

    // The projections as the device would read them back.
    let mut h2 = fs(&start);
    let mut kv2: FullState<F> = FullState::new(4, 32);
    let r = attend_projected(
        &attn_support(), &d, &w.attn, RopePairs::Halves, 3, &q_proj, k.clone(), v.clone(), &mut h2,
        &mut kv2, &cos, &sin, &attn_buffers(), 8, 9,
    );
    match r {
        AttnNext::ProjectBack { attn, .. } => {
            let o = fs(&l.o.times(&raw(&attn)));
            finish_full_attention(&d, &o, &mut h2);
        }
        _ => panic!("another path"),
    }
    near(&h2, &raw(&h1));
    assert_eq!(kv1.k_cache, kv2.k_cache);
    assert_eq!(kv2.len, 1);

    let mut h3 = fs(&start);
    let mut kv3: FullState<F> = FullState::new(4, 32);
    let r = attend_projected(
        &cpu, &d, &w.attn, RopePairs::Halves, 3, &q_proj, k.clone(), v.clone(), &mut h3, &mut kv3,
        &cos, &sin, &attn_buffers(), 8, 9,
    );
    assert!(matches!(r, AttnNext::Done));
    assert_eq!(h1, h3);

    let gpu = AttnSupport { values_kernel: true, ..attn_support() };
    let mut h4 = fs(&start);
    let mut kv4: FullState<F> = FullState::new(4, 32);
    let r = attend_projected(
        &gpu, &d, &w.attn, RopePairs::Halves, 3, &q_proj, k, v, &mut h4, &mut kv4, &cos, &sin,
        &attn_buffers(), 8, 9,
    );
    match r {
        AttnNext::Deferred { state, q, q_gate } => {
            assert_eq!(state.seq_len, 1);
            assert_eq!(state.q_dim, 64);
            assert_eq!(state.hidden_buf, 7);
            assert_eq!((q.len(), q_gate.len()), (64, 64));
        }
        _ => panic!("another path"),
    }
    assert_eq!(raw(&h4), start);
}

fn device_use(there: bool) -> DeviceUse {
    DeviceUse { mode: PipelineMode::Gpu, has_context: there, has_weights: true }
}

fn router_buffers() -> RouterBuffers<u32> {
    RouterBuffers {
        o_proj: 1, temp: 2, sum_sq: 3, normed: 4, gate_scores: 5, shared_gate: 6, shared_up: 7,
        shared_score: 8, weights: 9,
    }
}

#[test]
fn routing_with_a_device_ends_as_without() {
    let m = model();
    let l = &m.layers[0];
    let w = l.weights();
    let d = dims();
    let support = RouterSupport {
        attn_scores_batched: true,
        attn_softmax_batched: true,
        attn_values_batched: true,
        sigmoid_gate: true,
        residual_add: true,
        rms_norm_apply_bf16: true,
    };
    let start: Vec<f32> = (0..HD).map(|i| (i as f32 * 0.31).sin()).collect();
    let hidden = fs(&start);
    let r = moe_layer_forward::<F, u32>(
        &support, &device_use(true), &d, &w.moe, w.post_attn_norm, 0, &hidden, None, None, None, 40,
        &router_buffers(),
    );
    let h_post = match r {
        RouterStart::Device { h_post, commands } => {
            assert!(!commands.is_empty());
            h_post
        }
        _ => panic!("another path"),
    };
    near(&h_post, &norm_by(&start, &l.post_norm));
    let read = match moe_layer_forward::<F, u32>(
        &support, &device_use(false), &d, &w.moe, w.post_attn_norm, 0, &hidden, None, None, None, 40,
        &router_buffers(),
    ) {
        RouterStart::Cpu(read) => read,
        _ => panic!("another path"),
    };
    // The device's products, computed here.
    let x = raw(&h_post);
    let device = RouterRead {
        scores: fs(&l.gate.times(&x)),
        shared_gate: fs(&l.sg.times(&x)),
        shared_up: fs(&l.su.times(&x)),
        shared_score: F(l.seg.times(&x)[0]),
        h_post: h_post.clone(),
    };
    let (f1, p1) = route_products(&d, read);
    let (f2, p2) = route_products(&d, device);
    assert_eq!(f1.routing.indices, f2.routing.indices);
    assert_eq!(p1, p2);
    near(&f1.shared_act, &raw(&f2.shared_act));

    let parts = parts_of(&expert_layout(HD, 64, 64));
    let blobs: Vec<Option<Vec<u8>>> =
        f1.routing.indices.iter().map(|i| expert_blob(&l.file, *i, expert_size())).collect();
    let mut a = hidden.clone();
    let r = moe_fallback(&device_use(false), &d, &w.moe, &parts, &blobs, &f1, &p1, 0, &mut a, 1u32, 2);
    assert!(matches!(r, MoeFallback::Done));
    near(&a, &side_moe(l, &start));
    let mut b = hidden.clone();
    match moe_fallback(&device_use(true), &d, &w.moe, &parts, &blobs, &f1, &p1, 0, &mut b, 1u32, 2) {
        MoeFallback::ProjectShared { moe_out, commands } => {
            assert!(!commands.is_empty());
            let shared = fs(&l.sd.times(&raw(&f1.shared_act)));
            moe_combine(&moe_out, &shared, &f1.shared_gate_score, &mut b, HD);
        }
        _ => panic!("another path"),
    }
    near(&b, &raw(&a));
}

#[test]
fn the_newest_input_enters_the_convolution_state() {
    for kernel in 1..5usize {
        let d = LayerDims { conv_kernel: kernel, ..dims() };
        let w = LinearWeights {
            qkv: None,
            z: None,
            b: None,
            a: None,
            out_proj: None,
            conv1d: None,
            a_log: None,
            dt_bias: None,
            norm: None,
        };
        let n = d.conv_dim;
        let old: Vec<F> = (0..(kernel - 1) * n).map(|i| F(i as f32)).collect();
        let mut state = LinearAttnState {
            conv_state: old.clone(),
            ssm_state: vec![F(0.0); d.num_v_heads * d.value_dim * d.key_dim],
        };
        // Without matrices the projections are what the vectors hold.
        let newest: Vec<F> = (0..n).map(|i| F(-(i as f32))).collect();
        let mut qkv = newest.clone();
        step_linear_attention(
            &d,
            &w,
            &vec![F(1.0); HD],
            &mut state,
            &norm_epsilon(),
            &mut vec![F(0.0); HD],
            &mut qkv,
            &mut vec![F(0.0); d.total_value],
            &mut vec![F(0.0); d.num_v_heads],
            &mut vec![F(0.0); d.num_v_heads],
            &mut vec![F(0.0); n],
            &mut vec![F(0.0); d.total_value],
            &mut vec![F(0.0); d.total_value],
        );
        let mut want = old.clone();
        want.extend(newest);
        let want = want.split_off(n);
        assert_eq!(state.conv_state, if kernel == 1 { vec![] } else { want });
    }
}
