//! Forward-pass, decode, prefill and load planning.

pub mod attention_forward;
pub mod attention_meaning;
pub mod decode;
pub mod forward;
pub mod gdn_meaning;
pub mod grids;
pub mod head_parallel;
pub mod head_parallel_meaning;
pub mod instance;
pub mod kv_layout;
pub mod kv_meaning;
pub mod load;
pub mod mixer_meaning;
pub mod moe_forward;
pub mod moe_grouping;
pub mod moe_meaning;
pub mod moe_prefill;
pub mod moe_prefill_single;
pub mod moe_spreading;
pub mod moe_token;
pub mod p2p;
pub mod prefill;
pub mod prefill_meaning;
pub mod segments;
pub mod state;
pub mod trace;
pub mod trace_meaning;
pub mod warmup;
