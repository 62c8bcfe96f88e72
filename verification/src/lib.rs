//! Planning core of a GPU inference runtime.
//!
//! The library decides; it never touches a device. Paged KV bookkeeping, expert
//! placement, weight-load plans and the instruction streams of every forward pass
//! are computed here on plain values, each with a contract that Verus checks.
//! The code that owns GPUs carries the plans out.

pub mod arith;
pub mod config;
pub mod error;
pub mod json;
pub mod model;
pub mod moe_p2p;
pub mod moe_weights;
pub mod mtype_audit;
pub mod multi_gpu;
pub mod op_profile;
pub mod ops;
pub mod paged_kv;
pub mod per_batch_dispatch;
pub mod tensors;
pub mod text;
