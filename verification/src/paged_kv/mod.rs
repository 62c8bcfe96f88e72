//! Paged KV cache: chunk geometry, slot pools, shared chunk handles and the
//! per-sequence chunk list.

pub mod checkpoint;
pub mod chunk;
pub mod geometry;
pub mod sequence;
pub mod slots;

pub use geometry::{
    chunk_kv_bytes, quantized_chunk_kv_bytes, quantized_kv_offsets, recurrent_state_bytes,
};
pub use slots::{DeviceId, HipError, HostPageAllocator, PageAllocator, RecurrentCheckpointPool};
pub use chunk::{
    alloc_with_host_backing, ChunkCopy, ChunkHandle, ChunkRef, ChunkTable, ChunkTier, SharedChunk,
};
pub use sequence::SequenceState;
pub use checkpoint::{restore_checkpoint, save_checkpoint};
