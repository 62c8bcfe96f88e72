//! Where a token's keys and values sit inside an unquantized KV chunk.
//!
//! A chunk is laid out layer by layer; each layer has a K plane and a V plane, each
//! plane one block per KV head, each block one row of `head_dim` floats per token.

use vstd::prelude::*;
use crate::arith;
use crate::config::ModelConfig;
use crate::ops::CHUNK_TOKENS;
use crate::paged_kv::geometry;
use crate::paged_kv::chunk::{ChunkHandle, ChunkTable};
use crate::paged_kv::sequence::SequenceState;
use crate::paged_kv::slots;
use crate::paged_kv::slots::PageAllocator;

verus! {

/// Bytes of one K or V plane.
pub open spec fn plane_bytes(config: &ModelConfig) -> nat {
    CHUNK_TOKENS as nat * (config.num_kv_heads as nat * config.head_dim as nat) * 4
}

/// Byte offset of attention layer `attn`'s K plane.
pub open spec fn k_plane(config: &ModelConfig, attn: nat) -> nat {
    attn * (2 * plane_bytes(config))
}

/// Byte offset of attention layer `attn`'s V plane.
pub open spec fn v_plane(config: &ModelConfig, attn: nat) -> nat {
    k_plane(config, attn) + plane_bytes(config)
}

/// Byte offset, inside a plane, of head `head`'s row for the token at `offset`.
pub open spec fn head_row(config: &ModelConfig, head: nat, offset: nat) -> nat {
    (head * (CHUNK_TOKENS as nat * config.head_dim as nat) + offset * config.head_dim as nat) * 4
}

/// Bytes of one row.
pub open spec fn row_bytes(config: &ModelConfig) -> nat {
    config.head_dim as nat * 4
}

/// The planes of all attention layers make up the chunk.
pub proof fn law_planes_fill_chunk(config: &ModelConfig)
    ensures
        geometry::chunk_bytes_of(config, CHUNK_TOKENS as nat) == k_plane(
            config,
            config.attn_layers(),
        ),
{
    let n = config.attn_layers();
    let kv = config.num_kv_heads as nat * config.head_dim as nat;
    assert(n * 2 * 64 * kv * 4 == n * (2 * (64 * kv * 4))) by (nonlinear_arith);
}

/// Head blocks make up a plane.
pub proof fn law_heads_fill_plane(config: &ModelConfig)
    ensures
        plane_bytes(config) == head_row(config, config.num_kv_heads as nat, 0),
{
    let nkh = config.num_kv_heads as nat;
    let hd = config.head_dim as nat;
    assert((nkh * (64 * hd) + 0 * hd) * 4 == 64 * (nkh * hd) * 4) by (nonlinear_arith);
}

/// A row of a valid head and token lies inside its plane.
pub proof fn law_row_inside_plane(config: &ModelConfig, head: nat, offset: nat)
    requires
        head < config.num_kv_heads,
        offset < CHUNK_TOKENS,
    ensures
        head_row(config, head, offset) + row_bytes(config) <= plane_bytes(config),
{
    let nkh = config.num_kv_heads as nat;
    let hd = config.head_dim as nat;
    law_heads_fill_plane(config);
    arith::lemma_scaled_index(head as int, nkh as int, (64 * hd) as int);
    arith::lemma_scaled_index(offset as int, 64, hd as int);
}

/// Rows of different heads or different tokens never overlap.
pub proof fn law_rows_disjoint(config: &ModelConfig, h1: nat, o1: nat, h2: nat, o2: nat)
    requires
        o1 < CHUNK_TOKENS,
        o2 < CHUNK_TOKENS,
        (h1, o1) != (h2, o2),
    ensures
        head_row(config, h1, o1) + row_bytes(config) <= head_row(config, h2, o2) || head_row(
            config,
            h2,
            o2,
        ) + row_bytes(config) <= head_row(config, h1, o1),
{
    let hd = config.head_dim as int;
    let block = 64 * hd;
    arith::lemma_scaled_index(o1 as int, 64, hd);
    arith::lemma_scaled_index(o2 as int, 64, hd);
    if h1 < h2 {
        arith::lemma_scaled_index(h1 as int, h2 as int, block);
    } else if h2 < h1 {
        arith::lemma_scaled_index(h2 as int, h1 as int, block);
    } else if o1 < o2 {
        arith::lemma_scaled_index(o1 as int, o2 as int, hd);
    } else {
        arith::lemma_scaled_index(o2 as int, o1 as int, hd);
    }
}

/// Planes of different layers, and K and V of one layer, never overlap.
pub proof fn law_planes_disjoint(config: &ModelConfig, a: nat, b: nat)
    requires
        a < b,
    ensures
        k_plane(config, a) + plane_bytes(config) == v_plane(config, a),
        v_plane(config, a) + plane_bytes(config) <= k_plane(config, b),
{
    arith::lemma_scaled_index(a as int, b as int, (2 * plane_bytes(config)) as int);
}

/// The chunk of the model is addressable.
pub open spec fn chunk_fits(config: &ModelConfig) -> bool {
    &&& config.num_kv_heads * config.head_dim <= usize::MAX
    &&& CHUNK_TOKENS * config.head_dim <= usize::MAX
    &&& geometry::chunk_bytes_of(config, CHUNK_TOKENS as nat) <= usize::MAX
}

/// Byte offsets of attention layer `attn`'s K and V planes.
pub fn plane_offsets(config: &ModelConfig, attn: usize) -> (r: (usize, usize))
    requires
        chunk_fits(config),
        attn < config.attn_layers(),
    ensures
        r.0 == k_plane(config, attn as nat),
        r.1 == v_plane(config, attn as nat),
        r.1 + plane_bytes(config) <= geometry::chunk_bytes_of(config, CHUNK_TOKENS as nat),
{
    proof {
        law_planes_fill_chunk(config);
        let two = (2 * plane_bytes(config)) as int;
        arith::lemma_scaled_index(attn as int, config.attn_layers() as int, two);
    }
    let plane: usize = CHUNK_TOKENS * (config.num_kv_heads * config.head_dim) * 4;
    let k: usize = attn * (2 * plane);
    (k, k + plane)
}

/// Byte offset, inside a plane, of head `head`'s row for the token at `offset`.
pub fn row_offset(config: &ModelConfig, head: usize, offset: usize) -> (r: usize)
    requires
        chunk_fits(config),
        config.attn_layers() > 0,
        head < config.num_kv_heads,
        offset < CHUNK_TOKENS,
    ensures
        r == head_row(config, head as nat, offset as nat),
        r + row_bytes(config) <= plane_bytes(config),
{
    proof {
        law_row_inside_plane(config, head as nat, offset as nat);
        law_planes_fill_chunk(config);
        let two = (2 * plane_bytes(config)) as int;
        arith::lemma_scaled_index(0, config.attn_layers() as int, two);
        let hd = config.head_dim as int;
        assert(head * (64 * hd) >= 0 && offset * hd >= 0) by (nonlinear_arith)
            requires
                hd >= 0,
                head >= 0,
                offset >= 0,
        ;
    }
    let block: usize = CHUNK_TOKENS * config.head_dim;
    (head * block + offset * config.head_dim) * 4
}

/// Device address of each chunk of a sequence, in order.
pub open spec fn page_table_of(
    seq: &SequenceState,
    table: &ChunkTable,
    alloc: &PageAllocator,
) -> Seq<u64> {
    seq.chunks@.map_values(|h: ChunkHandle| alloc@.addr(h.chunk(table).slot_index as nat) as u64)
}

/// Device address of each chunk of a sequence, in order.
pub fn page_table(seq: &SequenceState, table: &ChunkTable, alloc: &PageAllocator) -> (r: Vec<u64>)
    requires
        seq.live(table),
        alloc.wf(),
        forall|i: int|
            0 <= i < seq.chunks@.len() ==> (#[trigger] seq.chunks@[i]).chunk(table).slot_index
                < alloc@.capacity,
    ensures
        r@ == page_table_of(seq, table, alloc),
{
    let mut r: Vec<u64> = Vec::new();
    let mut i: usize = 0;
    while i < seq.chunks.len()
        invariant
            i <= seq.chunks@.len(),
            seq.live(table),
            alloc.wf(),
            forall|j: int|
                0 <= j < seq.chunks@.len() ==> (#[trigger] seq.chunks@[j]).chunk(table).slot_index
                    < alloc@.capacity,
            r@.len() == i,
            forall|j: int| 0 <= j < i ==> r@[j] == page_table_of(seq, table, alloc)[j],
        decreases seq.chunks@.len() - i,
    {
        assert(table@.dom().contains(seq.chunks@[i as int].inner));
        let slot: u32 = seq.chunks[i].slot_index(table);
        r.push(alloc.slot_ptr(slot) as u64);
        i += 1;
    }
    assert(r@ =~= page_table_of(seq, table, alloc));
    r
}

/// A sequence that opens a chunk gets one more page; the pages before stay where they are.
pub proof fn law_pages_follow_chunks(
    before: &SequenceState,
    after: &SequenceState,
    table: &ChunkTable,
    alloc: &PageAllocator,
    h: ChunkHandle,
)
    requires
        after.chunks@ == before.chunks@.push(h),
    ensures
        page_table_of(after, table, alloc) == page_table_of(before, table, alloc).push(
            alloc@.addr(h.chunk(table).slot_index as nat) as u64,
        ),
{
    assert(page_table_of(after, table, alloc) =~= page_table_of(before, table, alloc).push(
        alloc@.addr(h.chunk(table).slot_index as nat) as u64,
    ));
}

/// Chunks in different slots have pages that share no byte.
pub proof fn law_pages_disjoint(
    seq: &SequenceState,
    table: &ChunkTable,
    alloc: &PageAllocator,
    i: int,
    j: int,
)
    requires
        0 <= i < seq.chunks@.len(),
        0 <= j < seq.chunks@.len(),
        alloc.wf(),
        seq.chunks@[i].chunk(table).slot_index < alloc@.capacity,
        seq.chunks@[j].chunk(table).slot_index < alloc@.capacity,
        seq.chunks@[i].chunk(table).slot_index != seq.chunks@[j].chunk(table).slot_index,
    ensures
        ({
            let pages = page_table_of(seq, table, alloc);
            let len = alloc@.slot_bytes;
            &&& alloc@.base <= pages[i]
            &&& pages[i] + len <= pages[j] || pages[j] + len <= pages[i]
        }),
{
    let a = seq.chunks@[i].chunk(table).slot_index;
    let b = seq.chunks@[j].chunk(table).slot_index;
    slots::law_slots_disjoint(alloc@, a, b);
    slots::law_slot_inside_pool(alloc@, a);
    slots::law_slot_inside_pool(alloc@, b);
}

} // verus!
