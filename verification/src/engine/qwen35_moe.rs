//! Engines for the Qwen3.5/3.6 mixture-of-experts models.

pub mod constants;

pub use constants::{ConfigDims, FullModel, ModelConfig, ModelDims, StrippedModel};
