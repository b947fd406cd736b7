use moe_infer::attention_math::{
    attend, attention_scale, attention_scores_batched, attention_softmax_batched,
    attention_values_batched, dot_product, kv_cache_append, rms_norm_heads, split_q_gate, NormOrder,
};
use moe_infer::delta_net::{
    compute_decay_beta, conv1d_step, decay_heads, gate_heads, gated_delta_net_step, gated_rms_norm,
    norm_key_heads, shift_conv_state,
};
use moe_infer::embeddings::{embed_lookup, lm_head_forward};
use moe_infer::expert_math::{expert_blob, read_halves, read_words, vec_madd};
use moe_infer::float_bits::{bf16_to_f32, f32_abs, f32_is_nan, f32_le, f32_lt, f32_to_bf16};
use moe_infer::linear_attention::gate_device_output;
use moe_infer::math_util::{
    activate_expert,
    copy_of, fill_zero, final_norm, moe_combine_residual, norm_epsilon, normalize_weights,
    residual_add, rms_norm, rms_norm_bare, rms_norm_bf16, rms_norm_bf16_inplace, rms_norm_gated, sigmoid,
    sigmoid_gate_inplace, silu, silu_of, softmax, softmax_prefix, swiglu_fused,
};
use moe_infer::quant::{bf16_scalar, dequant_matvec_4bit, nibble_of, weight_of};
use moe_infer::rope::{apply_rope, apply_rotary_emb, k_head_norm_rope, q_head_norm_rope};
use moe_infer::routing::{choose_experts, route};
use moe_infer::scalar::Scalar;
use moe_infer::stored::append_bf16;
use moe_infer::topk::topk;
use moe_infer::weights::{dequant_proj, matvec_lookup, QuantMat};

#[derive(Clone, Copy, Debug, PartialEq)]
struct F(f32);

impl Scalar for F {
    fn of_bits(bits: u32) -> Self {
        F(f32::from_bits(bits))
    }
    fn bits(&self) -> u32 {
        self.0.to_bits()
    }
    fn of_usize(n: usize) -> Self {
        F(n as f32)
    }
    fn dup(&self) -> Self {
        *self
    }
    fn plus(&self, other: &Self) -> Self {
        F(self.0 + other.0)
    }
    fn minus(&self, other: &Self) -> Self {
        F(self.0 - other.0)
    }
    fn times(&self, other: &Self) -> Self {
        F(self.0 * other.0)
    }
    fn over(&self, other: &Self) -> Self {
        F(self.0 / other.0)
    }
    fn negated(&self) -> Self {
        F(-self.0)
    }
    fn larger(&self, other: &Self) -> Self {
        F(self.0.max(other.0))
    }
    fn exponential(&self) -> Self {
        F(self.0.exp())
    }
    fn logarithm(&self) -> Self {
        F(self.0.ln())
    }
    fn root(&self) -> Self {
        F(self.0.sqrt())
    }
}

fn fs(x: &[f32]) -> Vec<F> {
    x.iter().map(|&v| F(v)).collect()
}

fn raw(x: &[F]) -> Vec<f32> {
    x.iter().map(|v| v.0).collect()
}

fn bf(x: f32) -> u16 {
    (x.to_bits() >> 16) as u16
}

fn close(a: f32, b: f32) -> bool {
    (a - b).abs() <= 1e-5 * (1.0 + b.abs())
}

#[test]
fn bf16_round_trips() {
    for x in [0.0f32, 1.0, -2.5, 0.0078125] {
        assert_eq!(bf16_to_f32(bf(x)), x.to_bits());
        assert_eq!(f32_to_bf16(x.to_bits()), bf(x));
    }
    assert_eq!(bf16_to_f32(0x3f80), 1.0f32.to_bits());
    assert_eq!(bf16_scalar::<F>(0x4000), F(2.0));
}

#[test]
fn bit_patterns_compare_as_numbers() {
    let xs = [0.0f32, -0.0, 1.0, -1.0, f32::INFINITY, f32::NEG_INFINITY, f32::NAN, 1e-40];
    for a in xs {
        assert_eq!(f32_is_nan(a.to_bits()), a.is_nan());
        assert_eq!(f32_abs(a.to_bits()), a.abs().to_bits());
        for b in xs {
            assert_eq!(f32_lt(a.to_bits(), b.to_bits()), a < b);
            assert_eq!(f32_le(a.to_bits(), b.to_bits()), a <= b);
        }
    }
}

#[test]
fn activations_are_exact() {
    assert_eq!(sigmoid(&F(0.0)), F(0.5));
    assert_eq!(sigmoid(&F(2.0)), F(1.0 / (1.0 + (-2.0f32).exp())));
    assert_eq!(silu_of(&F(3.0)), F(3.0 / (1.0 + (-3.0f32).exp())));
    let mut x = fs(&[1.0, -1.0, 5.0]);
    silu(&mut x, 2);
    assert_eq!(x[2], F(5.0));
    assert_eq!(x[1], F(-1.0 / (1.0 + 1.0f32.exp())));
    let mut out = fs(&[0.0, 0.0, 9.0]);
    swiglu_fused(&fs(&[1.0, 2.0]), &fs(&[3.0, 4.0]), &mut out, 2);
    assert!(close(out[0].0, 3.0 / (1.0 + (-3.0f32).exp())));
    assert_eq!(out[2], F(9.0));
    swiglu_fused(&fs(&[-200.0]), &fs(&[32.0]), &mut out, 1);
    assert_eq!(out[0], F(-6400.0));
    activate_expert(&fs(&[1.0, 2.0]), &fs(&[3.0, 4.0]), &mut out, 2);
    assert!(close(out[0].0, 3.0 / (1.0 + (-1.0f32).exp())));
    assert_eq!(out[2], F(9.0));
    let mut g = fs(&[2.0, 4.0]);
    sigmoid_gate_inplace(&mut g, &fs(&[0.0, 0.0]), 2);
    assert_eq!(g, fs(&[1.0, 2.0]));
}

#[test]
fn softmax_sums_to_one() {
    let mut x = fs(&[1.0, 2.0, 3.0]);
    softmax(&mut x);
    let sum: f32 = raw(&x).iter().sum();
    assert!(close(sum, 1.0));
    assert!(close(x[2].0, 1.0 / (1.0 + (-1.0f32).exp() + (-2.0f32).exp())));
    let mut y = fs(&[0.0, 0.0, 7.0]);
    softmax_prefix(&mut y, 2);
    assert_eq!(y, fs(&[0.5, 0.5, 7.0]));
    let mut empty: Vec<F> = vec![];
    softmax(&mut empty);
    assert!(empty.is_empty());
}

#[test]
fn weights_are_normalised() {
    let mut w = fs(&[1.0, 3.0]);
    normalize_weights(&mut w);
    assert_eq!(w, fs(&[0.25, 0.75]));
}

#[test]
fn norms_divide_by_the_root_mean_square() {
    assert!(close(norm_epsilon::<F>().0, 1e-6));
    let eps = F(0.0);
    let mut out = fs(&[0.0; 2]);
    rms_norm(&fs(&[3.0, 4.0]), &fs(&[1.0, 2.0]), &mut out, 2, &eps);
    let r = 12.5f32.sqrt();
    assert!(close(out[0].0, 3.0 / r) && close(out[1].0, 8.0 / r));
    rms_norm_bf16(&fs(&[3.0, 4.0]), &[bf(1.0), bf(2.0)], &mut out, 2, &eps);
    assert!(close(out[1].0, 8.0 / r));
    let mut bare = fs(&[9.0; 4]);
    rms_norm_bare(&fs(&[0.0, 3.0, 4.0]), 1, &mut bare, 2, 2, &eps);
    assert_eq!(bare[0], F(9.0));
    assert!(close(bare[2].0, 3.0 / r));
    let mut gated = fs(&[0.0; 2]);
    rms_norm_gated(&fs(&[3.0, 4.0]), &fs(&[0.0, 1.0]), &[bf(1.0), bf(1.0)], &mut gated, 0, 2, &eps);
    assert_eq!(gated[0], F(0.0));
    assert!(close(gated[1].0, 4.0 / r / (1.0 + (-1.0f32).exp())));
    let mut h = fs(&[3.0, 4.0]);
    final_norm(None, &mut h, 2);
    assert_eq!(h, fs(&[3.0, 4.0]));
    final_norm(Some(&[bf(1.0), bf(1.0)]), &mut h, 2);
    assert!(close(h[0].0, 3.0 / r));
}

#[test]
fn sums_and_copies() {
    let mut out = fs(&[0.0; 2]);
    residual_add(&fs(&[1.0, 2.0]), &fs(&[3.0, 4.0]), &mut out, 2);
    assert_eq!(out, fs(&[4.0, 6.0]));
    fill_zero(&mut out, 1);
    assert_eq!(out, fs(&[0.0, 6.0]));
    assert_eq!(copy_of(&out), out);
    let mut acc = fs(&[1.0, 1.0]);
    vec_madd(&mut acc, &fs(&[2.0, 3.0]), &F(0.5), 2);
    assert_eq!(acc, fs(&[2.0, 2.5]));
}

#[test]
fn combined_experts() {
    let mut out = fs(&[0.0; 2]);
    moe_combine_residual(
        &fs(&[1.0, 2.0]),
        &fs(&[4.0, 8.0]),
        &mut out,
        &vec![fs(&[1.0, 1.0]), fs(&[2.0, 2.0])],
        &fs(&[0.5, 0.25]),
        &F(0.0),
        2,
        2,
    );
    assert_eq!(out, fs(&[4.0, 7.0]));
}

#[test]
fn nibbles_and_weights() {
    assert_eq!(nibble_of(0x8765_4321, 0), 1);
    assert_eq!(nibble_of(0x8765_4321, 7), 8);
    assert_eq!(weight_of(0x21, 1, &F(0.5), &F(3.0)), F(4.0));
}

#[test]
fn quantised_products() {
    // One row of 64 weights: every nibble is 1, scale 2, bias -1, so every weight is 1.
    let w = [0x1111_1111u32; 8];
    let x: Vec<F> = (0..64).map(|i| F(i as f32)).collect();
    let mut out = fs(&[0.0, 5.0]);
    dequant_matvec_4bit(&w, &[bf(2.0)], &[bf(-1.0)], &x, &mut out, 1, 64, 64);
    assert_eq!(out, fs(&[2016.0, 5.0]));
    let m = QuantMat { w: &w, scales: &[bf(2.0)], biases: &[bf(-1.0)] };
    let mut out = fs(&[7.0]);
    dequant_proj(None, &x, &mut out, 1, 64, 64);
    assert_eq!(out, fs(&[7.0]));
    assert!(!matvec_lookup(None, &x, &mut out, 1, 64, 64));
    assert!(matvec_lookup(Some(m), &x, &mut out, 1, 64, 64));
    assert_eq!(out, fs(&[2016.0]));
}

#[test]
fn quantised_products_by_group() {
    // Two groups of 64 with different scales.
    let mut w = vec![0u32; 16];
    w[0] = 0x0000_0003;
    w[8] = 0x0000_0050;
    let mut x = fs(&[0.0; 128]);
    x[0] = F(10.0);
    x[65] = F(100.0);
    let mut out = fs(&[0.0]);
    dequant_matvec_4bit(&w, &[bf(1.0), bf(0.5)], &[bf(0.0), bf(1.0)], &x, &mut out, 1, 128, 64);
    assert_eq!(out, fs(&[30.0 + 350.0]));
}

#[test]
fn embeddings_are_rows() {
    let w = [0x1111_1111u32, 0x7654_3210];
    let scales = [bf(1.0), bf(2.0)];
    let biases = [bf(0.0), bf(1.0)];
    let m = QuantMat { w: &w, scales: &scales, biases: &biases };
    let mut out = fs(&[0.0; 8]);
    embed_lookup(Some(m), 1, 1, 1, &mut out, 8);
    assert_eq!(out, fs(&[1.0, 3.0, 5.0, 7.0, 9.0, 11.0, 13.0, 15.0]));
    embed_lookup(None, 1, 1, 1, &mut out, 8);
    assert_eq!(out, fs(&[0.0; 8]));
    let head = QuantMat { w: &[0x1111_1111u32; 8], scales: &[bf(1.0)], biases: &[bf(0.0)] };
    let mut logits = fs(&[0.0]);
    lm_head_forward(&head, &fs(&[1.0; 64]), &mut logits, 1, 64, 64);
    assert_eq!(logits, fs(&[64.0]));
}

#[test]
fn rotations_pair_halves() {
    let mut q = fs(&[1.0, 2.0, 3.0, 4.0, 5.0]);
    let mut k = fs(&[1.0, 0.0, 0.0, 1.0, 9.0]);
    // A quarter turn of both pairs.
    apply_rope(&mut q, &mut k, &fs(&[0.0, 0.0]), &fs(&[1.0, 1.0]), 1, 1, 5, 4);
    assert_eq!(q, fs(&[-3.0, -4.0, 1.0, 2.0, 5.0]));
    assert_eq!(k, fs(&[0.0, -1.0, 1.0, 0.0, 9.0]));
}

#[test]
fn rotations_pair_neighbours() {
    let mut q = fs(&[1.0, 2.0, 3.0, 4.0]);
    let mut k = fs(&[1.0, 0.0, 0.0, 1.0]);
    apply_rotary_emb(&mut q, &mut k, &fs(&[0.0, 1.0]), &fs(&[1.0, 0.0]), 1, 1, 4, 4);
    assert_eq!(q, fs(&[-2.0, 1.0, 3.0, 4.0]));
    assert_eq!(k, fs(&[-0.0, 1.0, 0.0, 1.0]));
}

#[test]
fn heads_are_split_normed_and_turned() {
    let mut q = fs(&[0.0; 4]);
    let mut gate = fs(&[0.0; 4]);
    let proj = fs(&[1.0, 2.0, 3.0, 4.0, 5.0, 6.0, 7.0, 8.0]);
    split_q_gate(&proj, &mut q, &mut gate, 2, 2);
    assert_eq!(q, fs(&[1.0, 2.0, 5.0, 6.0]));
    assert_eq!(gate, fs(&[3.0, 4.0, 7.0, 8.0]));

    let one = [bf(1.0), bf(1.0)];
    let cos = fs(&[1.0]);
    let sin = fs(&[0.0]);
    let mut q2 = fs(&[0.0; 4]);
    let mut g2 = fs(&[0.0; 4]);
    q_head_norm_rope(&proj, &one, &mut q2, &mut g2, 2, 2, 2, &cos, &sin, &F(0.0));
    assert_eq!(g2, gate);
    let r = 2.5f32.sqrt();
    assert!(close(q2[0].0, 1.0 / r) && close(q2[1].0, 2.0 / r));
    let mut k2 = fs(&[1.0, 2.0]);
    k_head_norm_rope(&mut k2, &one, 1, 2, 2, &cos, &sin, &F(0.0));
    assert_eq!(k2, q2[..2].to_vec());

    for order in [NormOrder::ScaleFirst, NormOrder::WeightFirst] {
        let mut h = fs(&[1.0, 2.0, 5.0, 6.0]);
        rms_norm_heads(order, &mut h, 2, 2, Some(&one), &F(0.0));
        assert!(close(h[1].0, 2.0 / r));
        let before = h.clone();
        rms_norm_heads(order, &mut h, 2, 2, None, &F(0.0));
        assert_eq!(h, before);
    }
}

#[test]
fn attention_weighs_values() {
    assert_eq!(attention_scale::<F>(16), F(0.25));
    assert_eq!(dot_product(&fs(&[0.0, 1.0, 2.0]), 1, &fs(&[3.0, 4.0]), 0, 2), F(11.0));
    // Two equal keys: the output is the mean of the values.
    let q = fs(&[1.0, 0.0, 0.0, 1.0]);
    let k = fs(&[1.0, 1.0, 1.0, 1.0]);
    let v = fs(&[2.0, 4.0, 6.0, 8.0]);
    let mut out = fs(&[0.0; 4]);
    attend(&q, &k, &v, &mut out, 2, 2, 2, 2, 2);
    for (a, b) in raw(&out).iter().zip([4.0, 6.0, 4.0, 6.0]) {
        assert!(close(*a, b));
    }
    // The batched form agrees.
    let mut scores = fs(&[0.0; 8]);
    attention_scores_batched(&q, &k, &mut scores, 2, 1, 2, 2, 2, 4);
    attention_softmax_batched(&mut scores, 2, 2, 4);
    assert!(close(scores[0].0, 0.5) && close(scores[4].0, 0.5));
    let mut out2 = fs(&[0.0; 4]);
    attention_values_batched(&scores, &v, &mut out2, 2, 1, 2, 2, 2, 4);
    for (a, b) in raw(&out2).iter().zip(raw(&out)) {
        assert!(close(*a, b));
    }
}

#[test]
fn attention_over_half_precision() {
    let mut kc: Vec<u16> = vec![0; 4];
    let mut vc: Vec<u16> = vec![0; 4];
    append_bf16(&fs(&[1.0, 1.0]), &mut kc, 0, 2);
    append_bf16(&fs(&[1.0, 1.0]), &mut kc, 1, 2);
    append_bf16(&fs(&[2.0, 4.0]), &mut vc, 0, 2);
    append_bf16(&fs(&[6.0, 8.0]), &mut vc, 1, 2);
    assert_eq!(vc, vec![bf(2.0), bf(4.0), bf(6.0), bf(8.0)]);
    assert_eq!(dot_product(&fs(&[1.0, 2.0]), 0, &vc, 2, 2), F(22.0));
    let mut out = fs(&[0.0; 2]);
    attend(&fs(&[1.0, 0.0]), &kc, &vc, &mut out, 1, 1, 2, 2, 2);
    assert!(close(out[0].0, 4.0) && close(out[1].0, 6.0));
}

#[test]
fn keys_and_values_are_appended() {
    let mut kc = fs(&[0.0; 4]);
    let mut vc = fs(&[0.0; 4]);
    kv_cache_append(&fs(&[1.0, 2.0]), &fs(&[3.0, 4.0]), &mut kc, &mut vc, 1, 2);
    assert_eq!(kc, fs(&[0.0, 0.0, 1.0, 2.0]));
    assert_eq!(vc, fs(&[0.0, 0.0, 3.0, 4.0]));
}

#[test]
fn convolution_shifts_its_state() {
    let w = [bf(1.0), bf(2.0), bf(3.0), bf(4.0)];
    let mut state = fs(&[1.0, 2.0, 3.0]);
    let mut out = fs(&[0.0]);
    conv1d_step(&state, &fs(&[4.0]), &w, &mut out, 1, 4);
    let acc = 1.0f32 + 4.0 + 9.0 + 16.0;
    assert!(close(out[0].0, acc / (1.0 + (-acc).exp())));
    shift_conv_state(&mut state, &fs(&[4.0]), 1);
    assert_eq!(state, fs(&[2.0, 3.0, 4.0]));
}

#[test]
fn decays_and_gates() {
    let want = |alpha: f32, a: f32, dt: f32| {
        let softplus = (1.0 + (alpha + dt).exp()).ln();
        (-a.exp() * softplus).exp()
    };
    let g = decay_heads(&fs(&[0.5]), Some(&[0.25f32.to_bits()]), Some(&[bf(1.0)]), 1);
    assert!(close(g[0].0, want(0.5, 0.25, 1.0)));
    // Missing tensors count as one and zero.
    let g = decay_heads(&fs(&[0.5]), None, None, 1);
    assert!(close(g[0].0, want(0.5, 1.0, 0.0)));
    assert_eq!(gate_heads(&fs(&[0.0]), 1), fs(&[0.5]));
    let mut d = fs(&[0.0]);
    let mut b = fs(&[0.0]);
    compute_decay_beta(&fs(&[0.5]), &fs(&[0.0]), &fs(&[0.25]), &[bf(1.0)], &mut d, &mut b, 1);
    assert!(close(d[0].0, want(0.5, 0.25, 1.0)));
    assert_eq!(b[0], F(0.5));
}

#[test]
fn recurrence_follows_the_delta_rule() {
    let (kd, vd) = (2usize, 2usize);
    let mut state = fs(&[1.0, 2.0, 3.0, 4.0]);
    let q = fs(&[1.0, 1.0]);
    let k = fs(&[0.5, -1.0]);
    let v = fs(&[2.0, 1.0]);
    let (g, beta) = (0.5f32, 0.25f32);
    let mut out = fs(&[0.0; 2]);
    gated_delta_net_step(
        &mut state, &q, 0, &k, 0, &v, 0, &fs(&[g]), &fs(&[beta]), &mut out, 1, 1, kd, vd,
    );
    let mut s = [1.0f32, 2.0, 3.0, 4.0];
    let mut want = [0.0f32; 2];
    for vi in 0..vd {
        for ki in 0..kd {
            s[vi * kd + ki] *= g;
        }
        let mem: f32 = (0..kd).map(|ki| s[vi * kd + ki] * k[ki].0).sum();
        let delta = (v[vi].0 - mem) * beta;
        for ki in 0..kd {
            s[vi * kd + ki] += k[ki].0 * delta;
        }
        want[vi] = (0..kd).map(|ki| s[vi * kd + ki] * q[ki].0).sum();
    }
    for i in 0..4 {
        assert!(close(state[i].0, s[i]));
    }
    assert!(close(out[0].0, want[0]) && close(out[1].0, want[1]));
}

#[test]
fn value_heads_are_normed_and_gated() {
    let one = [bf(1.0), bf(2.0)];
    let mut out = fs(&[0.0; 2]);
    gated_rms_norm(&fs(&[3.0, 4.0]), &fs(&[1.0, 1.0]), &one, &mut out, 1, 2, &F(0.0));
    let gate = 1.0 / (1.0 + (-1.0f32).exp());
    let r = 12.5f32.sqrt();
    assert!(close(out[1].0, 4.0 / r * 2.0 * gate));
    let mut vals = fs(&[3.0, 4.0]);
    gate_device_output(&mut vals, &fs(&[1.0, 1.0]), Some(&one), 1, 2);
    assert!((vals[1].0 - out[1].0).abs() < 1e-4);
    let mut vals = fs(&[3.0, 4.0]);
    gate_device_output(&mut vals, &fs(&[1.0, 1.0]), None, 1, 2);
    assert!((vals[1].0 - 4.0 / r * gate).abs() < 1e-4);
    let mut k = fs(&[0.0; 2]);
    norm_key_heads(NormOrder::ScaleFirst, &fs(&[0.0, 3.0, 4.0]), 1, &mut k, 1, 2, &F(0.0), &F(0.5));
    assert!(close(k[0].0, 1.5 / r));
}

#[test]
fn the_best_experts_are_chosen() {
    let scores = fs(&[0.1, 0.4, 0.2, 0.3]);
    let r = choose_experts(&scores, 2);
    let mut got = r.indices.clone();
    got.sort();
    assert_eq!(got, vec![1, 3]);
    let sum: f32 = raw(&r.weights).iter().sum();
    assert!(close(sum, 1.0));
    for (i, w) in r.indices.iter().zip(&r.weights) {
        assert!(close(w.0, scores[*i].0 / 0.7));
    }
    let mut logits = fs(&[0.0, 1.0, 2.0]);
    let r = route(&mut logits, 1);
    assert_eq!(r.indices, vec![2]);
    assert_eq!(r.weights, fs(&[1.0]));
    assert!(close(raw(&logits).iter().sum(), 1.0));
}

#[test]
fn top_k_keeps_the_largest() {
    let bits: Vec<u32> = [3.0f32, 1.0, 5.0, 4.0, 2.0].iter().map(|x| x.to_bits()).collect();
    let mut idx = [0usize; 3];
    let mut val = [0u32; 3];
    topk(&bits, 3, &mut idx, &mut val);
    let mut got: Vec<usize> = idx.to_vec();
    got.sort();
    assert_eq!(got, vec![0, 2, 3]);
    for j in 0..3 {
        assert_eq!(val[j], bits[idx[j]]);
    }
}

#[test]
fn top_k_yields_positions_of_scores() {
    let bits: Vec<u32> =
        [f32::NAN, -1.0, f32::INFINITY, f32::NAN, -0.0, 0.0].iter().map(|x| x.to_bits()).collect();
    for k in 1..=8 {
        let mut idx = vec![0usize; k];
        let mut val = vec![0u32; k];
        topk(&bits, k, &mut idx, &mut val);
        assert!(idx.iter().all(|i| *i < bits.len()));
    }
}

#[test]
fn bf16_weights_normalise_in_place() {
    let mut x = fs(&[7.0, 3.0, 4.0, 9.0]);
    rms_norm_bf16_inplace(&mut x, 1, &[0x3f80, 0x4000], 2, &F(0.0));
    let rms = 12.5f32.sqrt();
    let want = [7.0, 3.0 / rms, 2.0 * 4.0 / rms, 9.0];
    for (got, want) in x.iter().zip(want) {
        assert!(close(got.0, want));
    }
}

#[test]
fn bytes_are_little_endian() {
    let data = [1u8, 0, 0, 0, 0x34, 0x12, 9, 8, 7, 6];
    assert_eq!(read_words(&data, 0, 2), vec![1, 0x0809_1234]);
    assert_eq!(read_halves(&data, 4, 2), vec![0x1234, 0x0809]);
    assert_eq!(expert_blob(&data, 1, 4), Some(vec![0x34, 0x12, 9, 8]));
    assert_eq!(expert_blob(&data, 2, 4), None);
}
