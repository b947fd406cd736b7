use moe_infer::cache::FullState;
use moe_infer::command::{at, whole, Binding, Command, Pipeline, Tensor};
use moe_infer::config::load_config;
use moe_infer::constants::expert_layout;
use moe_infer::deferred::{DeviceUse, PipelineMode};
use moe_infer::engine::fused::{layer_dims, EngineFusedWoods, FusedExp, FusedWoods, FusedWoodsScratch};
use moe_infer::engine::qwen35_moe::constants::{ConfigDims, ModelConfig, StrippedModel};
use moe_infer::error::{IoErrorKind, MoEError};
use moe_infer::expert::{
    bind_parts, expert_part_reads, expert_read, run_expert_forward, run_expert_forward_fast,
    ExpertVectors,
};
use moe_infer::expert_cache::ExpertLRUCache;
use moe_infer::full_attention::{
    defer_attention, project_program, qkv_program, AttnBuffers, FullAttnCmd2State,
};
use moe_infer::full_forward::{accumulate, layer_program, rank_weights, LayerBuffers};
use moe_infer::gpu_forward::{
    dispatch_experts, moe_layer_forward, route_and_pread, slots_present, FullAttnCache,
    LinearDeferred, NormCache, RouterStart, SlotBytes,
};
use moe_infer::gpu_ops::{
    fast_dequant_matvec, gpu_dequant_matvec, gpu_encode_batch_matvec, gpu_encode_combine,
    gpu_encode_expert_forward_slot, gpu_encode_shared_down_swiglu, gpu_flush_batch_results,
    BatchMatvecSpec,
};
use moe_infer::kernels::{
    encode_matvec_offset, encode_residual_add, encode_rms_norm_bf16, metal_dequant_matvec,
    metal_rms_norm, metal_swiglu, metal_weighted_sum,
};
use moe_infer::linear_program::{
    fused_program, recurrence_program, split_program, LinearBuffers, LinearOffsets,
    RecurrenceBuffers,
};
use moe_infer::metal::{DeviceReport, MetalCtx, Pipelines};
use moe_infer::moe_program::{
    combine_params, encode_pre_expert, expert_program, full_router_program, fuse_next_norm,
    kept_alive, linear_router_program, router_program, BufferOwner, ExpertBuffers, RouterBuffers,
    RouterPath, RouterSupport, COMBINE_PARAMS, SHARED_SCORE_PARAM,
};
use moe_infer::pipeline::{
    full_attention_layer, launch_attention, linear_group, DeviceParts, GroupAction, GroupWork,
    LayerOffsets, LinearGroup, PipelineBuffers,
};
use moe_infer::scalar::Scalar;
use moe_infer::schedule::linear_group_plan;
use moe_infer::mixed_attention::QkvBuffers;
use moe_infer::weights::{AttnWeights, LayerDims, MoeWeights, QuantMat};

#[derive(Clone, Copy, Debug, PartialEq)]
struct F(f32);

impl Scalar for F {
    fn of_bits(bits: u32) -> Self {
        F(f32::from_bits(bits))
    }
    fn bits(&self) -> u32 {
        self.0.to_bits()
    }
    fn of_usize(n: usize) -> Self {
        F(n as f32)
    }
    fn dup(&self) -> Self {
        *self
    }
    fn plus(&self, other: &Self) -> Self {
        F(self.0 + other.0)
    }
    fn minus(&self, other: &Self) -> Self {
        F(self.0 - other.0)
    }
    fn times(&self, other: &Self) -> Self {
        F(self.0 * other.0)
    }
    fn over(&self, other: &Self) -> Self {
        F(self.0 / other.0)
    }
    fn negated(&self) -> Self {
        F(-self.0)
    }
    fn larger(&self, other: &Self) -> Self {
        F(self.0.max(other.0))
    }
    fn exponential(&self) -> Self {
        F(self.0.exp())
    }
    fn logarithm(&self) -> Self {
        F(self.0.ln())
    }
    fn root(&self) -> Self {
        F(self.0.sqrt())
    }
}

fn fs(x: &[f32]) -> Vec<F> {
    x.iter().map(|&v| F(v)).collect()
}


fn dims() -> LayerDims {
    LayerDims {
        hidden_dim: 64,
        num_heads: 2,
        num_kv_heads: 1,
        head_dim: 32,
        rotary_dim: 16,
        num_experts: 4,
        experts_per_tok: 2,
        moe_inter: 64,
        shared_inter: 128,
        num_v_heads: 2,
        num_k_heads: 1,
        key_dim: 32,
        value_dim: 32,
        total_key: 32,
        total_value: 64,
        conv_dim: 128,
        conv_kernel: 4,
        group_size: 64,
    }
}

/// Encoders are opened and closed in turn, everything else is recorded into an open one, and
/// the work is committed once. Returns whether it is waited for.
fn well_formed<B>(p: &[Command<B>]) -> bool {
    let mut open = false;
    let mut committed = 0;
    let mut waited = false;
    for c in p {
        match c {
            Command::NewEncoder => {
                assert!(!open && committed == 0);
                open = true;
            }
            Command::EndEncoding => {
                assert!(open);
                open = false;
            }
            Command::Commit => {
                assert!(!open);
                committed += 1;
            }
            Command::WaitUntilCompleted => {
                assert_eq!(committed, 1);
                waited = true;
            }
            _ => assert!(open),
        }
    }
    assert!(!open);
    assert_eq!(committed, 1);
    waited
}

fn projections<B>(p: &[Command<B>]) -> Vec<Tensor> {
    p.iter()
        .filter_map(|c| match c {
            Command::Project { tensor, .. } => Some(*tensor),
            _ => None,
        })
        .collect()
}

fn pipelines<B>(p: &[Command<B>]) -> Vec<Pipeline> {
    p.iter()
        .filter_map(|c| match c {
            Command::SetPipeline(p) => Some(*p),
            _ => None,
        })
        .collect()
}

fn grids<B>(p: &[Command<B>]) -> Vec<(u64, u64)> {
    p.iter()
        .filter_map(|c| match c {
            Command::Dispatch { groups, threads } => Some((*groups, *threads)),
            _ => None,
        })
        .collect()
}

#[test]
fn matvecs_differ_by_speed() {
    for (speed, pipe, grid) in [
        (3, Pipeline::MatvecV3, (13, 256)),
        (1, Pipeline::MatvecFast, (100, 64)),
        (0, Pipeline::MatvecNaive, (100, 256)),
    ] {
        let p = metal_dequant_matvec(0u32, 1, 2, 3, 4, 100, 64, 64, speed);
        assert!(well_formed(&p));
        assert_eq!(pipelines(&p), vec![pipe]);
        assert_eq!(grids(&p), vec![grid]);
    }
    let mut enc = Vec::new();
    encode_matvec_offset(&mut enc, at(1u32, 16), whole(2), whole(3), whole(4), whole(5), 8, 64, 64, 3);
    assert!(enc.contains(&Command::SetBuffer { index: 0, binding: Binding { buffer: 1, offset: 16 } }));
}

#[test]
fn small_kernels() {
    let p = metal_swiglu(true, 0u32, 1, 2, 1024);
    assert!(well_formed(&p));
    assert_eq!(pipelines(&p), vec![Pipeline::SwigluVec4]);
    assert_eq!(pipelines(&metal_swiglu(false, 0u32, 1, 2, 1024)), vec![Pipeline::Swiglu]);
    let p = metal_weighted_sum(0u32, 1, 2, 4, 300);
    assert!(well_formed(&p));
    assert_eq!(grids(&p), vec![(2, 256)]);
    let p = metal_rms_norm(0u32, 1, 2, 3, 64, 1.5f32.to_bits());
    assert!(well_formed(&p));
    assert_eq!(pipelines(&p), vec![Pipeline::RmsNormSum, Pipeline::RmsNormApply]);
    let mut enc = Vec::new();
    encode_rms_norm_bf16(&mut enc, 0u32, at(1, 8), 2, 3, 64, 7);
    assert_eq!(pipelines(&enc), vec![Pipeline::RmsNormSum, Pipeline::RmsNormApplyBf16]);
    encode_residual_add(&mut enc, 0, 1, 2, 257);
    assert_eq!(grids(&enc).last(), Some(&(2, 256)));
}

fn linear_buffers() -> LinearBuffers<u32> {
    LinearBuffers {
        input: 0, qkv: 1, z: 2, beta: 3, alpha: 4, conv_state: 5, delta_state: 6, conv_output: 7,
        g_decay: 8, beta_gate: 9, delta_output: 10, gated: 11, weights: 12, o_proj: 13, residual: 14,
        hidden_out: 15,
    }
}

fn offsets() -> LinearOffsets {
    LinearOffsets { conv1d: Some(100), a_log: Some(200), dt_bias: None, norm: Some(400) }
}

#[test]
fn linear_layers_in_one_command_buffer() {
    let p = fused_program(&dims(), 5, &linear_buffers(), &offsets(), 9);
    assert!(well_formed(&p));
    assert_eq!(
        projections(&p),
        vec![
            Tensor::InProjQkv(5),
            Tensor::InProjZ(5),
            Tensor::InProjB(5),
            Tensor::InProjA(5),
            Tensor::OutProj(5),
        ]
    );
    assert!(p.contains(&Command::RmsNormQk {
        q: whole(7),
        k: at(7, 128),
        num_heads: 1,
        key_dim: 32,
        inv_scale: 9,
    }));
    // A missing tensor is bound to a stand-in.
    assert!(p.contains(&Command::ComputeDecayBeta {
        alpha: 4,
        beta: 3,
        a_log: at(12, 200),
        dt_bias: whole(3),
        g_decay: 8,
        beta_gate: 9,
        num_v_heads: 2,
    }));
    assert_eq!(pipelines(&p), vec![Pipeline::ResidualAdd]);

    let s = split_program(&dims(), 5, &linear_buffers(), &offsets(), 9, false);
    assert!(well_formed(&s));
    assert_eq!(projections(&s).len(), 4);
    assert!(!s.iter().any(|c| matches!(c, Command::GatedRmsNorm { .. })));
    let s = split_program(&dims(), 5, &linear_buffers(), &offsets(), 9, true);
    assert!(s.iter().any(|c| matches!(c, Command::GatedRmsNorm { .. })));
    // Without convolution weights nothing is convolved.
    let off = LinearOffsets { conv1d: None, ..offsets() };
    let s = split_program(&dims(), 5, &linear_buffers(), &off, 9, true);
    assert!(!s.iter().any(|c| matches!(c, Command::Conv1dStep { .. })));
}

#[test]
fn recurrences_from_the_cpu() {
    let b = RecurrenceBuffers {
        q: 20u32, k: 21, v: 22, z: 23, alpha: 24, beta: 25, a_log: 26, dt_bias: 27, g_decay: 28,
        beta_gate: 29, state: 30, output: 31, gated: 32, norm: Some(33),
    };
    let (p, read) = recurrence_program(&dims(), &b, 1);
    assert!(well_formed(&p));
    assert_eq!(read, 32);
    let (p, read) = recurrence_program(&dims(), &RecurrenceBuffers { norm: None, ..b }, 1);
    assert_eq!(read, 31);
    assert!(!p.iter().any(|c| matches!(c, Command::GatedRmsNorm { .. })));
}

#[test]
fn attention_projections() {
    let p = qkv_program(&dims(), 3, 0u32, 1, 2, 3);
    assert!(well_formed(&p));
    assert_eq!(projections(&p), vec![Tensor::QProj(3), Tensor::KProj(3), Tensor::VProj(3)]);
    assert!(p.contains(&Command::Project {
        tensor: Tensor::QProj(3),
        x: whole(0),
        out: whole(1),
        out_dim: 128,
        in_dim: 64,
    }));
    let p = project_program(Tensor::LmHead, 0u32, 1, 1000, 64);
    assert!(well_formed(&p));
    assert_eq!(projections(&p), vec![Tensor::LmHead]);
}

fn deferred() -> FullAttnCmd2State<u32> {
    defer_attention::<F, u32>(
        &dims(),
        3,
        10,
        &AttnBuffers { q: 1, q_gate: 2, k_cache: 3, v_cache: 4, scores: 5, out: 6, hidden: 7 },
    )
}

fn router_buffers() -> RouterBuffers<u32> {
    RouterBuffers {
        o_proj: 21, temp: 22, sum_sq: 23, normed: 24, gate_scores: 25, shared_gate: 26, shared_up: 27,
        shared_score: 28, weights: 29,
    }
}

const ROUTER: [Tensor; 4] = [
    Tensor::RouterGate(3),
    Tensor::SharedGateProj(3),
    Tensor::SharedUpProj(3),
    Tensor::SharedExpertGate(3),
];

#[test]
fn deferred_attention_describes_itself() {
    let a = deferred();
    assert_eq!((a.seq_len, a.num_attn_heads, a.head_dim, a.kv_dim, a.q_dim), (10, 2, 32, 32, 64));
    assert_eq!(a.heads_per_kv, 2);
    assert_eq!(a.scale, (1.0f32 / 32f32.sqrt()).to_bits());
    assert_eq!(a.o_proj, Tensor::OProj(3));
}

#[test]
fn routing_behind_attention() {
    let p = full_router_program(&dims(), 3, &deferred(), 64, &router_buffers());
    assert!(well_formed(&p));
    let mut want = vec![Tensor::OProj(3)];
    want.extend(ROUTER);
    assert_eq!(projections(&p), want);
    assert_eq!(
        pipelines(&p),
        vec![
            Pipeline::AttnScoresBatched,
            Pipeline::AttnSoftmaxBatched,
            Pipeline::AttnValuesBatched,
            Pipeline::SigmoidGate,
            Pipeline::ResidualAdd,
            Pipeline::RmsNormSum,
            Pipeline::RmsNormApplyBf16,
        ]
    );
    assert_eq!(grids(&p)[0], (20, 256));
    let p = linear_router_program(&dims(), 3, 50u32, 51, 64, &router_buffers());
    assert!(well_formed(&p));
    let mut want = vec![Tensor::OutProj(3)];
    want.extend(ROUTER);
    assert_eq!(projections(&p), want);
    let p = router_program(&dims(), 3, 60u32, &router_buffers());
    assert!(well_formed(&p));
    assert_eq!(projections(&p), ROUTER.to_vec());
}

fn device() -> DeviceUse {
    DeviceUse { mode: PipelineMode::Gpu, has_context: true, has_weights: true }
}

fn support(all: bool) -> RouterSupport {
    RouterSupport {
        attn_scores_batched: all,
        attn_softmax_batched: true,
        attn_values_batched: true,
        sigmoid_gate: true,
        residual_add: true,
        rms_norm_apply_bf16: true,
    }
}

#[test]
fn routing_paths() {
    assert_eq!(support(true).choose_path(true, true, false), RouterPath::FusedFull);
    assert_eq!(support(false).choose_path(true, true, false), RouterPath::Device);
    assert_eq!(support(false).choose_path(true, false, true), RouterPath::FusedLinear);
    assert_eq!(support(true).choose_path(false, true, true), RouterPath::Cpu);
    let w = MoeWeights {
        gate: None,
        shared_gate: None,
        shared_up: None,
        shared_down: None,
        shared_expert_gate: None,
    };
    let hidden = fs(&[1.0; 64]);
    match moe_layer_forward(
        &support(true), &device(), &dims(), &w, None, 3, &hidden, Some(deferred()), None, Some(64), 60,
        &router_buffers(),
    ) {
        RouterStart::Fused { commands, mid } => {
            assert!(well_formed(&commands));
            assert_eq!(mid, 22);
        }
        _ => panic!("another path"),
    }
    match moe_layer_forward(
        &support(true), &device(), &dims(), &w, None, 3, &hidden, None,
        Some(LinearDeferred { gated: 50u32, h_mid: 51 }), Some(64), 60, &router_buffers(),
    ) {
        RouterStart::Fused { commands, .. } => assert_eq!(projections(&commands)[0], Tensor::OutProj(3)),
        _ => panic!("another path"),
    }
}

fn expert_buffers() -> ExpertBuffers<u32> {
    ExpertBuffers {
        x: 1, data: vec![2, 3], out: vec![4, 5], gate: 6, up: 7, act: 8, shared_gate: Some(9),
        shared_up: Some(10), shared_act: 11, shared_down: 12, h_mid: 13, moe_hidden: 14, params: 15,
        sum_sq: 16, next_input: 17, weights: 18,
    }
}

#[test]
fn experts_in_one_command_buffer() {
    let l = expert_layout(64, 64, 64);
    let p = expert_program(false, &dims(), &l, 3, &expert_buffers(), &[true, false], 2, Some(99));
    assert!(!well_formed(&p));
    // One expert of three products, the shared expert, the sum, and the next norm.
    assert_eq!(pipelines(&p).iter().filter(|p| **p == Pipeline::MatvecV3).count(), 3);
    assert_eq!(projections(&p), vec![Tensor::SharedDownProj(3)]);
    assert!(pipelines(&p).contains(&Pipeline::MoeCombineResidual));
    assert_eq!(pipelines(&p).last(), Some(&Pipeline::RmsNormApplyBf16));
    let p = expert_program(false, &dims(), &l, 3, &expert_buffers(), &[true, true], 2, None);
    assert_eq!(pipelines(&p).iter().filter(|p| **p == Pipeline::MatvecV3).count(), 6);
    assert_eq!(pipelines(&p).last(), Some(&Pipeline::MoeCombineResidual));
}

#[test]
fn dispatching_experts() {
    let l = expert_layout(64, 64, 64);
    let half = SlotBytes::Read(l.expert_size_4bit / 2);
    let whole = SlotBytes::Read(l.expert_size_4bit);
    let cpu = DeviceUse { mode: PipelineMode::CpuOnly, ..device() };
    for off in [cpu, DeviceUse { has_context: false, ..device() }, DeviceUse { has_weights: false, ..device() }] {
        assert!(!off.use_gpu());
        let none = dispatch_experts(
            &off, false, &dims(), &l, 3, 8, &expert_buffers(), &[whole, whole], &fs(&[0.5, 0.5]),
            &F(2.0), BufferOwner::Layer, true, true, Some(99),
        );
        assert!(none.is_none());
    }
    assert_eq!(slots_present(&[half, whole, SlotBytes::Cached], l.expert_size_4bit), vec![false, true, true]);
    let none = dispatch_experts(
        &device(), false, &dims(), &l, 3, 8, &expert_buffers(), &[half, half], &fs(&[0.5, 0.5]), &F(2.0),
        BufferOwner::Layer, true, true, Some(99),
    );
    assert!(none.is_none());
    let d = dispatch_experts(
        &device(), false, &dims(), &l, 3, 8, &expert_buffers(), &[whole, SlotBytes::Cached], &fs(&[0.25, 0.75]), &F(2.0),
        BufferOwner::Layer, true, true, Some(99),
    )
    .unwrap();
    assert_eq!(d.params.len(), COMBINE_PARAMS);
    assert_eq!(d.params[1], F(0.75));
    assert_eq!(d.params[SHARED_SCORE_PARAM], F(2.0));
    assert_eq!(d.out_buf, 14);
    assert!(d.next_normed);
    assert_eq!(d.keep_alive[0], 13);
    assert!(d.keep_alive.contains(&2) && d.keep_alive.contains(&10));
    // The last layer has no next norm.
    let d = dispatch_experts(
        &device(), false, &dims(), &l, 7, 8, &expert_buffers(), &[whole, whole], &fs(&[0.25, 0.75]), &F(2.0),
        BufferOwner::Pool, true, true, Some(99),
    )
    .unwrap();
    assert!(!d.next_normed);
    assert_eq!(d.keep_alive, vec![13, 9, 10]);
    assert_eq!(kept_alive(&expert_buffers(), 2, BufferOwner::PoolExceptOutputs), vec![13, 4, 5, 9, 10]);
    assert_eq!(fuse_next_norm(true, 0, 2, true, Some(5)), Some(5));
    assert_eq!(fuse_next_norm(true, 0, 2, false, Some(5)), None);
    assert_eq!(combine_params(&fs(&[1.0]), &F(3.0))[0], F(1.0));
}

#[test]
fn a_linear_layer_up_to_its_experts() {
    let mut enc = Vec::new();
    encode_pre_expert(&mut enc, &dims(), 3, &linear_buffers(), &offsets(), 1, 64, &router_buffers());
    let mut want = vec![
        Tensor::InProjQkv(3),
        Tensor::InProjZ(3),
        Tensor::InProjB(3),
        Tensor::InProjA(3),
        Tensor::OutProj(3),
    ];
    want.extend(ROUTER);
    assert_eq!(projections(&enc), want);
}

#[test]
fn routing_reads_missing_experts() {
    let mut cache: ExpertLRUCache<u32> = ExpertLRUCache::new(4, 4, vec![10, 20, 30]);
    cache.insert(1, 3, 4);
    let mut scores = fs(&[0.0, 3.0, 1.0, 2.0]);
    let mut data = vec![0u32, 0];
    let (routing, missing) = route_and_pread(&mut scores, 2, &mut cache, 1, 4, &mut data);
    let mut chosen = routing.indices.clone();
    chosen.sort();
    assert_eq!(chosen, vec![1, 3]);
    assert_eq!(missing.len(), 1);
    assert_eq!(routing.indices[missing[0]], 1);
    assert_eq!(data[1 - missing[0]], 10);
}

fn device_parts() -> DeviceParts<u32> {
    DeviceParts {
        input: 1,
        batch_out: (10..17).collect(),
        conv_states: (20..23).collect(),
        delta_states: (30..33).collect(),
        conv_output: 40, g_decay: 41, beta_gate: 42, delta_output: 43, moe_hidden: 44, out_proj: 45,
        temp_residual: 46, post_sum_sq: 47, post_normed: 48, gate_scores: 49, shared_gate: 50,
        shared_up: 51, shared_gate_score: 52, next_sum_sq: 53,
        expert_data: vec![60, 61],
        expert_out: vec![62, 63],
        scratch_gate: 64, scratch_up: 65, scratch_act: 66, shared_act: 67, shared_down: 68,
        combine_params: 69, weights: 70,
    }
}

fn pre_projections(layer: usize) -> Vec<Tensor> {
    vec![
        Tensor::InProjQkv(layer),
        Tensor::InProjZ(layer),
        Tensor::InProjB(layer),
        Tensor::InProjA(layer),
        Tensor::OutProj(layer),
        Tensor::RouterGate(layer),
        Tensor::SharedGateProj(layer),
        Tensor::SharedUpProj(layer),
        Tensor::SharedExpertGate(layer),
    ]
}

#[test]
fn a_group_of_linear_layers_is_pipelined() {
    let b = PipelineBuffers::new(device_parts());
    let d = dims();
    let l = expert_layout(64, 64, 64);
    let offsets: Vec<LayerOffsets> = (0..4)
        .map(|i| LayerOffsets { linear: offsets(), post_norm: 1000 + i, input_norm: Some(2000 + i) })
        .collect();
    let work = GroupWork { has_vec4: true, d: &d, l: &l, offsets: &offsets, k: 2 };
    let hidden = fs(&[2.0; 64]);
    let norm = [0x3f80u16; 64];
    let mut cache: ExpertLRUCache<u32> = ExpertLRUCache::new(4, 4, vec![80, 81, 82]);
    let mut g: LinearGroup<F, u32> = linear_group(0, 3, 4, b);
    let plan = linear_group_plan(0, 3, 4);
    let mut runs = 0;
    let mut taken = 0;
    loop {
        match g.next_action(&work, Some(&norm), &hidden, &[true, true]) {
            GroupAction::Upload { hidden: h, normed } => {
                assert_eq!(taken, 0);
                assert_eq!(h, hidden);
                assert!(normed.iter().all(|x| (x.0 - 1.0).abs() < 1e-5));
            }
            GroupAction::Run { params, commands } => {
                assert!(well_formed(&commands));
                let mut want = Vec::new();
                if runs > 0 {
                    want.push(Tensor::SharedDownProj(runs - 1));
                    // The layer's experts are computed from the buffers that routing gave them.
                    for expert in [1, 3] {
                        let e = cache.entry_index(runs as i32 - 1, expert, 4) as usize;
                        let binding = at([80, 81, 82][e], l.down_w_off as u64);
                        assert!(commands.contains(&Command::SetBuffer { index: 0, binding }));
                    }
                    let params = params.unwrap();
                    assert_eq!(params.len(), COMBINE_PARAMS);
                    assert_eq!(params[SHARED_SCORE_PARAM], F((runs - 1) as f32));
                    assert!((params[0].0 + params[1].0 - 1.0).abs() < 1e-5);
                    let norm = Command::SetBuffer { index: 1, binding: at(70, 2000 + runs as u64) };
                    assert!(commands.contains(&norm));
                } else {
                    assert!(params.is_none());
                }
                if runs < 3 {
                    want.extend(pre_projections(runs));
                    let conv = commands.iter().any(
                        |c| matches!(c, Command::Conv1dStep { state, .. } if *state == 20 + runs as u32),
                    );
                    assert!(conv);
                }
                assert_eq!(projections(&commands), want);
                runs += 1;
            }
            GroupAction::UpdateConv { layer } => assert_eq!(layer, runs - 1),
            GroupAction::Route { layer } => {
                assert_eq!(layer, runs - 1);
                let mut scores = fs(&[0.0, 3.0, 1.0, 2.0]);
                let (chosen, missing) =
                    g.routed(&work, &mut scores, F(layer as f32), &mut cache, 4);
                let mut chosen = chosen;
                chosen.sort();
                assert_eq!(chosen, vec![1, 3]);
                assert_eq!(missing.len(), 2);
            }
            GroupAction::Download => assert_eq!(taken, plan.len() - 1),
            GroupAction::Done => break,
        }
        taken += 1;
    }
    assert_eq!(taken, plan.len());
    assert_eq!(runs, 4);
    let mut empty: LinearGroup<F, u32> = linear_group(2, 0, 4, g.b);
    assert!(matches!(
        empty.next_action(&work, None, &hidden, &[true, true]),
        GroupAction::Done
    ));
}

#[test]
fn the_last_group_norms_nothing_behind_it() {
    let b = PipelineBuffers::new(device_parts());
    let d = dims();
    let l = expert_layout(64, 64, 64);
    let offsets = [LayerOffsets { linear: offsets(), post_norm: 1000, input_norm: Some(2000) }];
    let work = GroupWork { has_vec4: true, d: &d, l: &l, offsets: &offsets, k: 2 };
    let hidden = fs(&[0.0; 64]);
    let mut g: LinearGroup<F, u32> = linear_group(0, 1, 1, b);
    g.at = 4;
    match g.next_action(&work, None, &hidden, &[true, false]) {
        GroupAction::Run { commands, .. } => {
            assert!(well_formed(&commands));
            assert!(!pipelines(&commands).contains(&Pipeline::RmsNormSum));
            let computed: Vec<bool> = [60, 61]
                .iter()
                .map(|&e| {
                    let binding = at(e, l.down_w_off as u64);
                    commands.contains(&Command::SetBuffer { index: 0, binding })
                })
                .collect();
            assert_eq!(computed, vec![true, false]);
            for slot in 0..2 {
                let binding = whole(62 + slot as u32);
                assert!(commands.contains(&Command::SetBuffer { index: 3 + slot, binding }));
            }
        }
        _ => panic!("another step"),
    }
}

#[test]
fn full_attention_between_two_groups() {
    let d = dims();
    let hidden = fs(&[1.0; 64]);
    let (normed, commands) =
        full_attention_layer(&d, None, 3, &hidden, &QkvBuffers { x: 1u32, q: 2, k: 3, v: 4 });
    assert_eq!(normed, hidden);
    assert!(well_formed(&commands));
    assert_eq!(projections(&commands), vec![Tensor::QProj(3), Tensor::KProj(3), Tensor::VProj(3)]);

    let w = AttnWeights { q: None, k: None, v: None, o: None, q_norm: None, k_norm: None };
    let mut kv: FullState<F> = FullState::new(4, 32);
    kv.len = 2;
    let q_proj: Vec<F> = (0..128).map(|i| F(i as f32)).collect();
    let (cos, sin) = (fs(&[0.0; 8]), fs(&[1.0; 8]));
    let bufs = AttnBuffers {
        q: 10u32, q_gate: 11, k_cache: 12, v_cache: 13, scores: 14, out: 15, hidden: 16,
    };
    let r = launch_attention(
        &d, &w, 3, &q_proj, fs(&[5.0; 32]), fs(&[6.0; 32]), &mut kv, &cos, &sin, &bufs, 64,
        &router_buffers(),
    );
    assert_eq!(kv.len, 3);
    assert_eq!(r.at, 64);
    assert_eq!(r.q[0], F(-8.0));
    assert_eq!(r.q[8], F(0.0));
    assert_eq!(r.q[16], F(16.0));
    assert_eq!(r.q_gate[0], F(32.0));
    assert_eq!(r.k[0], F(-5.0));
    assert_eq!(kv.k_cache[64..96], r.k[..]);
    assert_eq!(kv.v_cache[64..96], r.v[..]);
    assert_eq!(r.state.seq_len, 3);
    assert!(well_formed(&r.commands));
    let mut want = vec![Tensor::OProj(3)];
    want.extend(ROUTER);
    assert_eq!(projections(&r.commands), want);
}

#[test]
fn norms_are_converted_once() {
    let mut c: NormCache<F> = NormCache::new(3);
    let w = [0x3f80u16, 0x4000];
    assert_eq!(*c.get_norm_f32(1, Some(&w)), fs(&[1.0, 2.0]));
    assert_eq!(*c.get_norm_f32(1, Some(&w)), fs(&[1.0, 2.0]));
    assert!(c.entries[1].is_some() && c.entries[0].is_none());
    let mut kv: FullAttnCache<F> = FullAttnCache::new(3, 2);
    assert_eq!(kv.k_cache.len(), 6);
    kv.len = 2;
    kv.reset();
    assert_eq!(kv.len, 0);
}

#[test]
fn parts_of_an_expert_are_read_in_place() {
    let l = expert_layout(64, 64, 64);
    let all = expert_read(2, &l);
    assert_eq!((all.offset, all.size), (2 * l.expert_size_4bit as i64, l.expert_size_4bit));
    let parts = expert_part_reads(2, &l);
    assert_eq!(parts.len(), 9);
    assert_eq!(parts[0].offset, all.offset);
    assert_eq!(parts.iter().map(|p| p.size).sum::<usize>(), all.size);
    let b = bind_parts(5u32, &l);
    assert_eq!(b.up_s, at(5, l.up_s_off as u64));
}

#[test]
fn single_experts() {
    let l = expert_layout(64, 64, 64);
    let v = ExpertVectors { x: 1u32, gate: 2, up: 3, act: 4, out: 5 };
    let p = run_expert_forward(&dims(), false, &bind_parts(9, &l), &v, 3);
    assert!(well_formed(&p));
    assert_eq!(
        pipelines(&p),
        vec![Pipeline::MatvecV3, Pipeline::MatvecV3, Pipeline::Swiglu, Pipeline::MatvecV3]
    );
    let q = run_expert_forward_fast(&dims(), &l, false, 7, l.expert_size_4bit as i64, 9, &v, 3).unwrap();
    assert_eq!(p, q);
    let e = run_expert_forward_fast(&dims(), &l, false, 7, 12, 9, &v, 3).unwrap_err();
    assert!(matches!(&e, MoEError::Io(i) if i.kind == IoErrorKind::UnexpectedEof));
    assert_eq!(
        e.message(),
        format!("I/O error: pread expert 7: got 12, expected {}", l.expert_size_4bit)
    );
}

#[test]
fn whole_layers_of_experts() {
    let l = expert_layout(64, 64, 64);
    let b = LayerBuffers {
        data: vec![1u32, 2],
        gate: vec![3, 4],
        up: vec![5, 6],
        act: vec![7, 8],
        out: vec![9, 10],
        h: 11,
    };
    let p = layer_program(&dims(), &l, false, &b, 2);
    assert!(well_formed(&p));
    assert_eq!(pipelines(&p).iter().filter(|p| **p == Pipeline::MatvecV3).count(), 6);
    let w: Vec<F> = rank_weights(3);
    let sum: f32 = w.iter().map(|x| x.0).sum();
    assert!((sum - 1.0).abs() < 1e-6);
    assert!(w[0].0 > w[1].0 && w[1].0 > w[2].0);
    let mut h = fs(&[1.0, 1.0]);
    accumulate(&mut h, &[fs(&[2.0, 4.0]), fs(&[4.0, 8.0])], &fs(&[0.5, 0.25]));
    assert_eq!(h, fs(&[3.0, 5.0]));
}

fn shaders() -> Pipelines {
    Pipelines {
        matvec_v3: true, matvec_v5: false, matvec_fast: true, matvec_2bit: false, rms_norm_sum: true,
        rms_norm_apply: true, rms_norm_apply_bf16: true, residual_add: true, swiglu: true,
        attn_scores_pipe: true, attn_softmax_pipe: true, attn_values_pipe: true,
        sigmoid_gate_pipe: true, moe_combine_residual: true, delta_net_step: true, conv1d_step: true,
        rms_norm_qk: true, compute_decay_beta: true, gated_rms_norm: true,
    }
}

fn context() -> MetalCtx {
    let cfg = load_config("{}").unwrap();
    match MetalCtx::new(&cfg, false, DeviceReport::Ready(shaders())) {
        Ok(c) => c,
        Err(e) => panic!("{e}"),
    }
}

#[test]
fn contexts_need_a_device_and_its_shaders() {
    let cfg = load_config("{}").unwrap();
    let e = MetalCtx::new(&cfg, false, DeviceReport::NotFound).err().unwrap();
    assert_eq!(e, "ERROR: No Metal device found");
    let e = MetalCtx::new(&cfg, false, DeviceReport::ShaderError("a\"b".to_string())).err().unwrap();
    assert_eq!(e, "ERROR: Shader compile failed: \"a\\\"b\"");
    let p = Pipelines { residual_add: false, ..shaders() };
    let e = MetalCtx::new(&cfg, false, DeviceReport::Ready(p)).err().unwrap();
    assert_eq!(e, "ERROR: Required pipeline missing: residual_add");
}

#[test]
fn contexts_hold_buffers_for_every_layer() {
    let cfg = load_config("{}").unwrap();
    let mut c = context();
    assert_eq!(c.buf_kv_k.len(), 10);
    assert_eq!(c.buf_delta_state.len(), 30);
    assert_eq!(c.lens[c.buf_h_mid], 4 * 2048);
    assert_eq!(c.lens[c.buf_delta_state[0]], 4 * 32 * 128 * 128);
    assert_eq!(c.lens[c.buf_kv_k[9]], 4 * 8192 * 512);
    let resets = c.reset_delta_net_state(&cfg);
    assert_eq!(resets.len(), 30);
    assert_eq!(resets[4], (c.buf_delta_state[4], c.buf_conv_state[4]));
    let before = c.lens.len();
    let id = c.set_weights(1000);
    assert_eq!(id, before);
    assert_eq!(c.wf_buf, Some(id));
    assert!(c.lens[id] >= 1000);
}

fn matvec(slot: usize) -> BatchMatvecSpec {
    BatchMatvecSpec { w: 0, scales: 32, biases: 64, out_dim: 1, in_dim: 64, group_size: 64, batch_slot: slot }
}

#[test]
fn products_run_where_the_weights_are() {
    let mut c = context();
    let w = [0x1111_1111u32; 8];
    let m = QuantMat { w: &w, scales: &[0x3f80], biases: &[0] };
    let mut out = fs(&[0.0]);
    assert!(fast_dequant_matvec(&c, &matvec(0), &m, &fs(&[1.0; 64]), &mut out).is_none());
    assert_eq!(out, fs(&[64.0]));
    let id = c.set_weights(100);
    let mut out = fs(&[0.0]);
    let p = fast_dequant_matvec(&c, &matvec(0), &m, &fs(&[1.0; 64]), &mut out).unwrap();
    assert_eq!(out, fs(&[0.0]));
    assert_eq!(p, gpu_dequant_matvec(&c, id, &matvec(0)));
    assert!(well_formed(&p));
}

#[test]
fn batches_of_products() {
    let mut c = context();
    c.set_weights(100);
    let mut cmd = Vec::new();
    gpu_encode_batch_matvec(&c, &mut cmd, &[matvec(0), matvec(2)]);
    assert_eq!(pipelines(&cmd), vec![Pipeline::MatvecV3; 2]);
    let slots = [fs(&[1.0, 9.0]), fs(&[2.0]), fs(&[3.0, 4.0])];
    let r = gpu_flush_batch_results(&slots, &[matvec(2), matvec(0)]);
    assert_eq!(r, vec![fs(&[3.0]), fs(&[1.0])]);
}

#[test]
fn expert_slots_of_a_context() {
    let mut c = context();
    let cfg = load_config("{}").unwrap();
    let mut cmd = Vec::new();
    gpu_encode_expert_forward_slot(&cfg, &c, &mut cmd, 1, false);
    assert_eq!(pipelines(&cmd).len(), 4);
    let mut cmd = Vec::new();
    assert!(gpu_encode_combine(&c, &mut cmd, 2, &F(1.0), &fs(&[0.1; 8]), 0, 2048, 0).is_none());
    assert!(cmd.is_empty());
    c.set_weights(100);
    let params = gpu_encode_combine(&c, &mut cmd, 2, &F(1.0), &fs(&[0.1; 8]), 0, 2048, 0).unwrap();
    assert_eq!((params[1], params[2], params[8]), (F(0.1), F(0.0), F(1.0)));
    assert!(pipelines(&cmd).contains(&Pipeline::MoeCombineResidual));
    let mut cmd = Vec::new();
    gpu_encode_shared_down_swiglu(&cfg, &c, &mut cmd, 0, 8, 16);
    assert!(pipelines(&cmd).contains(&Pipeline::Swiglu));
}

#[test]
fn fused_engines_are_made_for_their_model() {
    let m = StrippedModel::constants();
    let d = layer_dims(&m);
    assert_eq!((d.hidden_dim, d.experts_per_tok, d.conv_kernel), (2048, 4, 4));
    let s: FusedWoodsScratch<F> = FusedWoodsScratch::new(&d);
    assert_eq!(s.q_proj_out.len(), 2 * 16 * 256);
    let c = ConfigDims {
        hidden_dim: m.hidden_dim,
        num_layers: m.num_layers,
        num_experts: m.num_experts,
        num_experts_per_tok: m.num_experts_per_tok,
        moe_intermediate: m.moe_intermediate,
        shared_intermediate: m.shared_intermediate,
        num_attn_heads: m.num_attn_heads,
        num_kv_heads: m.num_kv_heads,
        head_dim: m.head_dim,
        vocab_size: m.vocab_size,
        linear_num_v_heads: m.linear_num_v_heads,
        linear_num_k_heads: m.linear_num_k_heads,
        linear_total_key: m.linear_total_key,
        linear_total_value: m.linear_total_value,
    };
    let e = match FusedWoods::<F>::new::<StrippedModel>(&c, "") {
        Ok(e) => e,
        Err(e) => panic!("{}", e.message()),
    };
    assert_eq!(e.norm_cache.entries.len(), 9);
    assert!(!e.forward(1).is_empty());
    let x = FusedExp::new::<StrippedModel>(&c, "", 3).unwrap();
    assert_eq!(x.k, 3);
    assert!(!x.forward(1).is_empty());
    assert!(FusedExp::new::<StrippedModel>(&ConfigDims { head_dim: 1, ..c }, "", 3).is_err());
    let w = EngineFusedWoods { dims: d, num_layers: 4, vocab_size: 10 };
    assert!(w.forward(0).is_empty());
}
