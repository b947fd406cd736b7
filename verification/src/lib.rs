//! Verified core of a mixture-of-experts inference engine.

pub mod attention;
pub mod attention_math;
pub mod bench;
pub mod cache;
pub mod command;
pub mod config;
pub mod constants;
pub mod cpu_forward;
pub mod cpu_layer;
pub mod deferred;
pub mod delta_net;
pub mod device_work;
pub mod embeddings;
pub mod engine;
pub mod error;
pub mod expert;
pub mod expert_cache;
pub mod expert_fetch;
pub mod expert_io;
pub mod expert_math;
pub mod float_bits;
pub mod full_attention;
pub mod full_forward;
pub mod generate;
pub mod gpu_forward;
pub mod gpu_ops;
pub mod io_pool;
pub mod kernels;
pub mod layer_laws;
pub mod linear_attention;
pub mod linear_forward;
pub mod linear_program;
pub mod lru;
pub mod math_util;
pub mod metal;
pub mod mixed_attention;
pub mod moe_program;
pub mod phase;
pub mod pipeline;
pub mod program_laws;
pub mod quant;
pub mod rope;
pub mod routing;
pub mod run_config;
pub mod sample;
pub mod scalar;
pub mod schedule;
pub mod sort;
pub mod stored;
pub mod sums;
pub mod telemetry;
pub mod text;
pub mod token_run;
pub mod topk;
pub mod types;
pub mod weights;
