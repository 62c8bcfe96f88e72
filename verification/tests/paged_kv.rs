use braidinfer_runtime::config::{
    FfnType, LayerConfig, LayerType, ModelConfig, RecurrentLayerKind, WeightQuantMode,
};
use braidinfer_runtime::model::state::reset_lengths;
use braidinfer_runtime::paged_kv::checkpoint::{restore_checkpoint, save_checkpoint};
use braidinfer_runtime::paged_kv::chunk::{
    alloc_with_host_backing, ChunkCopy, ChunkHandle, ChunkTable, ChunkTier,
};
use braidinfer_runtime::paged_kv::geometry::{
    chunk_kv_bytes, quantized_chunk_kv_bytes, quantized_kv_offsets, recurrent_state_bytes,
};
use braidinfer_runtime::paged_kv::sequence::SequenceState;
use braidinfer_runtime::paged_kv::slots::{
    DeviceId, HipError, HostPageAllocator, PageAllocator, RecurrentCheckpointPool,
};

/// Every fourth layer attends, the others are recurrent.
fn make_test_config() -> ModelConfig {
    let mut layers = Vec::new();
    for i in 0..24 {
        let layer_type = if i % 4 == 3 { LayerType::Attention } else { LayerType::Gdn };
        layers.push(LayerConfig { layer_type, ffn_type: FfnType::Dense });
    }
    ModelConfig {
        num_layers: 24,
        hidden_size: 1024,
        intermediate_size: 3584,
        vocab_size: 248320,
        max_seq_len: 8192,
        num_q_heads: 8,
        num_kv_heads: 2,
        head_dim: 256,
        rope_dim: 64,
        mrope_section: (11, 11, 10),
        linear_num_heads: 16,
        linear_num_value_heads: 16,
        linear_key_head_dim: 128,
        linear_value_head_dim: 128,
        linear_conv_kernel_dim: 4,
        has_output_gate: true,
        has_qk_norm: true,
        use_rope: true,
        rms_norm_one_plus_w: true,
        tie_word_embeddings: true,
        moe_latent_size: None,
        weight_quant: WeightQuantMode::Bf16,
        recurrent_kind: RecurrentLayerKind::Gdn,
        rms_norm_eps: 0x358637bd,
        layers,
    }
}

#[test]
fn test_chunk_kv_bytes() {
    let config = make_test_config();
    let bytes = chunk_kv_bytes(&config, 64);
    let expected = 6 * 2 * 64 * 2 * 256 * 4;
    assert_eq!(bytes, expected, "chunk_kv_bytes mismatch");
}

#[test]
fn test_quantized_chunk_kv_bytes() {
    let config = make_test_config();
    let q_bytes = quantized_chunk_kv_bytes(&config, 64);
    let expected = 6 * 2 * 2 * (2 * 64 * 256 / 2 + 2 * 256 * 4);
    assert_eq!(q_bytes, expected, "quantized_chunk_kv_bytes mismatch");
    let f32_bytes = chunk_kv_bytes(&config, 64);
    let ratio = f32_bytes as f64 / q_bytes as f64;
    assert!((ratio - 3.56).abs() < 0.01, "expected ~3.56x reduction, got {ratio:.2}x");
}

#[test]
fn test_quantized_kv_offsets() {
    let config = make_test_config();
    let (q1d, q1s, rd, rs) = quantized_kv_offsets(&config, 64, 0, false);
    assert_eq!(q1d, 0);
    let data_bytes = 2 * 64 * 256 / 2;
    let scale_bytes = 2 * 256 * 4;
    assert_eq!(q1s, data_bytes);
    assert_eq!(rd, data_bytes + scale_bytes);
    assert_eq!(rs, 2 * data_bytes + scale_bytes);
}

#[test]
fn quantized_offsets_of_values_in_a_later_layer() {
    let config = make_test_config();
    let data_bytes = 2 * 64 * 256 / 2;
    let scale_bytes = 2 * 256 * 4;
    let per_kv = 2 * (data_bytes + scale_bytes);
    let (q1d, q1s, rd, rs) = quantized_kv_offsets(&config, 64, 2, true);
    assert_eq!(q1d, 2 * 2 * per_kv + per_kv);
    assert_eq!(q1s, q1d + data_bytes);
    assert_eq!(rd, q1s + scale_bytes);
    assert_eq!(rs, rd + data_bytes);
}

#[test]
fn recurrent_states_are_counted_by_key_heads() {
    let mut config = make_test_config();
    config.linear_num_heads = 4;
    assert_eq!(recurrent_state_bytes(&config), 18 * 4 * 128 * 128 * 4);
    assert_eq!(reset_lengths(&config).recurrent * 4 * 18, recurrent_state_bytes(&config));
}

#[test]
fn test_recurrent_state_bytes() {
    let config = make_test_config();
    let bytes = recurrent_state_bytes(&config);
    let expected = 18 * 16 * 128 * 128 * 4;
    assert_eq!(bytes, expected, "recurrent_state_bytes mismatch");
}

#[test]
fn test_chunk_handle_refcount() {
    let mut table = ChunkTable::new();
    let handle = ChunkHandle::new(&mut table, 42);
    assert_eq!(handle.slot_index(&table), 42);
    assert_eq!(handle.len(&table), 0);

    let handle2 = handle.share(&mut table);
    assert_eq!(handle.strong_count(&table), 2);
    handle2.release(&mut table);
    assert_eq!(handle.strong_count(&table), 1);
}

#[test]
fn test_chunk_handle_increment_len() {
    let mut table = ChunkTable::new();
    let handle = ChunkHandle::new(&mut table, 0);
    handle.increment_len(&mut table);
    handle.increment_len(&mut table);
    assert_eq!(handle.len(&table), 2);
}

#[test]
fn test_sequence_state_chunk_allocation_logic() {
    let chunk_tokens = 4u32;
    let mut table = ChunkTable::new();
    let mut seq = SequenceState::new(chunk_tokens);

    assert!(seq.chunks.is_empty());
    assert_eq!(seq.seq_len, 0);
    assert!(seq.positions.is_empty());

    assert!(
        seq.chunks.is_empty()
            || seq.chunks.last().map_or(true, |c| c.len(&table) >= chunk_tokens)
    );

    let first = ChunkHandle::new(&mut table, 0);
    seq.chunks.push(first);
    seq.seq_len += 1;
    seq.positions.push(7);
    seq.chunks.last().unwrap().increment_len(&mut table);

    assert_eq!(seq.seq_len, 1);
    assert_eq!(seq.current_chunk_offset(&table), 1);
    assert_eq!(seq.current_chunk_idx(), 0);

    for _ in 1..chunk_tokens {
        seq.chunks.last().unwrap().increment_len(&mut table);
        seq.seq_len += 1;
        seq.positions.push(seq.seq_len as i32);
    }
    assert_eq!(seq.chunks.last().unwrap().len(&table), chunk_tokens);

    let needs_new = seq.chunks.last().unwrap().len(&table) >= chunk_tokens;
    assert!(needs_new);

    let second = ChunkHandle::new(&mut table, 1);
    seq.chunks.push(second);
    seq.kv_version += 1;
    seq.chunks.last().unwrap().increment_len(&mut table);
    seq.seq_len += 1;
    seq.positions.push(99);

    assert_eq!(seq.chunks.len(), 2);
    assert_eq!(seq.current_chunk_idx(), 1);
    assert_eq!(seq.current_chunk_offset(&table), 1);
    assert_eq!(seq.positions, vec![7, 2, 3, 4, 99]);
}

#[test]
fn the_offset_wraps_when_a_chunk_is_full() {
    let mut table = ChunkTable::new();
    let mut seq = SequenceState::new(3);
    let chunk = ChunkHandle::new(&mut table, 0);
    seq.chunks.push(chunk);
    for expected in [1, 2, 0] {
        seq.chunks.last().unwrap().increment_len(&mut table);
        assert_eq!(seq.current_chunk_offset(&table), expected);
    }
    assert_eq!(seq.chunks.last().unwrap().len(&table), 3);
}

#[test]
fn test_sequence_state_accessors() {
    let table = ChunkTable::new();
    let mut seq = SequenceState::new(64);
    assert!(seq.current_chunk_mut().is_none());
    assert_eq!(seq.current_chunk_offset(&table), 0);
    assert_eq!(seq.current_chunk_idx(), 0);
}

#[test]
fn test_chunk_handle_default_tier_is_vram() {
    let mut table = ChunkTable::new();
    let h = ChunkHandle::new(&mut table, 7);
    assert_eq!(h.tier(&table), ChunkTier::Vram);
    assert_eq!(h.generation(&table), 0);
}

#[test]
fn test_chunk_handle_tier_transition() {
    let mut table = ChunkTable::new();
    let h = ChunkHandle::new(&mut table, 3);
    assert_eq!(h.tier(&table), ChunkTier::Vram);

    h.set_tier(&mut table, ChunkTier::HostPinned);
    assert_eq!(h.tier(&table), ChunkTier::HostPinned);

    h.set_tier(&mut table, ChunkTier::Vram);
    assert_eq!(h.tier(&table), ChunkTier::Vram);
}

#[test]
fn test_chunk_handle_generation_monotonic() {
    let mut table = ChunkTable::new();
    let h = ChunkHandle::new(&mut table, 0);
    assert_eq!(h.generation(&table), 0);
    let old = h.bump_generation(&mut table);
    assert_eq!(old, 0);
    assert_eq!(h.generation(&table), 1);
    h.bump_generation(&mut table);
    h.bump_generation(&mut table);
    assert_eq!(h.generation(&table), 3);
}

#[test]
fn test_chunk_handle_tier_shared_across_clones() {
    let mut table = ChunkTable::new();
    let h1 = ChunkHandle::new(&mut table, 5);
    let h2 = h1.share(&mut table);
    assert_eq!(h2.tier(&table), ChunkTier::Vram);

    h1.set_tier(&mut table, ChunkTier::HostPinned);
    assert_eq!(h2.tier(&table), ChunkTier::HostPinned);

    h2.bump_generation(&mut table);
    assert_eq!(h1.generation(&table), 1);
}

#[test]
fn test_mock_host_alloc_free_reuse() {
    let chunk_bytes = 128;
    let capacity = 4u32;
    let mut alloc = HostPageAllocator::new(chunk_bytes, capacity, Some(0x1000)).unwrap();

    let mut slots = Vec::new();
    for _ in 0..capacity {
        let (slot, _ptr) = alloc.alloc_slot().expect("alloc should succeed");
        slots.push(slot);
    }
    assert!(alloc.alloc_slot().is_none());

    let freed = slots[0];
    alloc.free(freed);
    let (reused_slot, _) = alloc.alloc_slot().expect("should reuse freed slot");
    assert_eq!(reused_slot, freed);
}

#[test]
fn test_mock_host_alloc_slot_ptr_arithmetic() {
    let chunk_bytes = 64;
    let capacity = 3u32;
    let mut alloc = HostPageAllocator::new(chunk_bytes, capacity, Some(0x1000)).unwrap();

    let (s0, _) = alloc.alloc_slot().unwrap();
    let (s1, _) = alloc.alloc_slot().unwrap();
    let p0 = alloc.slot_ptr(s0);
    let p1 = alloc.slot_ptr(s1);
    let diff = if p1 > p0 { p1 - p0 } else { p0 - p1 };
    let slot_diff = if s1 > s0 { (s1 - s0) as usize } else { (s0 - s1) as usize };
    assert_eq!(diff, chunk_bytes * slot_diff);
}

#[test]
fn test_host_allocator_slot_ptr_offsets() {
    let chunk_bytes: usize = 256;
    let capacity: u32 = 8;
    let base_addr: usize = 0x1000_0000;
    let alloc = HostPageAllocator::new(chunk_bytes, capacity, Some(base_addr)).unwrap();

    for slot in 0..capacity {
        let expected = base_addr + slot as usize * chunk_bytes;
        assert_eq!(alloc.slot_ptr(slot), expected);
    }
    assert_eq!(alloc.slot_ptr(3) - alloc.slot_ptr(2), chunk_bytes);
}

#[test]
fn test_chunk_tier_discriminant_values() {
    assert_eq!(ChunkTier::Vram.as_u8(), 0u8);
    assert_eq!(ChunkTier::HostPinned.as_u8(), 1u8);
    assert_eq!(ChunkTier::from_u8(0), ChunkTier::Vram);
    assert_eq!(ChunkTier::from_u8(1), ChunkTier::HostPinned);
}

#[test]
fn test_vram_ptr_none_when_host_pinned() {
    let mut table = ChunkTable::new();
    let h = ChunkHandle::new(&mut table, 0);
    assert_eq!(h.tier(&table), ChunkTier::Vram);
    h.set_tier(&mut table, ChunkTier::HostPinned);
    assert_eq!(h.tier(&table), ChunkTier::HostPinned);
    assert_ne!(h.tier(&table), ChunkTier::Vram);
    let pool = PageAllocator::new(DeviceId(0), &make_test_config(), 64, 2, 0x10_0000);
    assert_eq!(h.vram_ptr(&table, &pool), None);
}

#[test]
fn vram_ptr_of_a_device_chunk_is_its_slot() {
    let config = make_test_config();
    let mut table = ChunkTable::new();
    let pool = PageAllocator::new(DeviceId(0), &config, 64, 4, 0x10_0000);
    let h = ChunkHandle::new(&mut table, 3);
    let bytes = chunk_kv_bytes(&config, 64);
    assert_eq!(h.vram_ptr(&table, &pool), Some(0x10_0000 + 3 * bytes));
}

#[test]
fn host_ptr_of_a_pinned_chunk_is_its_host_slot() {
    let mut table = ChunkTable::new();
    let host = HostPageAllocator::new(128, 4, Some(0x2000)).unwrap();
    let h = ChunkHandle::new(&mut table, 2);
    h.set_tier(&mut table, ChunkTier::HostPinned);
    assert_eq!(h.host_ptr(&table, &host), 0x2000 + 2 * 128);
}

#[test]
fn host_pool_without_memory_is_absent() {
    assert!(HostPageAllocator::new(128, 4, None).is_none());
}

#[test]
fn page_pool_hands_out_slot_zero_first_and_reuses_the_last_freed() {
    let config = make_test_config();
    let bytes = chunk_kv_bytes(&config, 64);
    let mut pool = PageAllocator::new(DeviceId(1), &config, 64, 3, 4096);
    assert_eq!(pool.capacity(), 3);
    assert_eq!(pool.free_count(), 3);
    assert_eq!(pool.chunk_bytes(), bytes);
    assert_eq!(pool.device(), DeviceId(1));
    assert_eq!(pool.alloc_slot(), Some((0, 4096)));
    assert_eq!(pool.alloc_slot(), Some((1, 4096 + bytes)));
    assert!(pool.is_out(1));
    pool.free(0);
    assert!(!pool.is_out(0));
    assert_eq!(pool.alloc_slot(), Some((0, 4096)));
    assert_eq!(pool.alloc_slot(), Some((2, 4096 + 2 * bytes)));
    assert_eq!(pool.alloc_slot(), None);
}

#[test]
fn a_shared_chunk_is_copied_before_it_is_written() {
    let config = make_test_config();
    let bytes = chunk_kv_bytes(&config, 64);
    let mut table = ChunkTable::new();
    let mut pool = PageAllocator::new(DeviceId(0), &config, 64, 4, 0);
    let (slot, addr) = pool.alloc_slot().unwrap();
    let h = ChunkHandle::new(&mut table, slot);
    h.increment_len(&mut table);

    let (own, copy) = h.make_exclusive(&mut table, &mut pool).unwrap();
    assert!(copy.is_none());
    assert_eq!(own.slot_index(&table), slot);

    let other = h.share(&mut table);
    let before = other.strong_count(&table);
    let (own2, copy2) = other.make_exclusive(&mut table, &mut pool).unwrap();
    assert!(before > 1);
    assert_eq!(copy2, Some(ChunkCopy { dst: bytes, src: addr, bytes }));
    assert_eq!(own2.slot_index(&table), 1);
    assert_eq!(own2.len(&table), 1);
    assert_eq!(own2.strong_count(&table), 1);
}

#[test]
fn copying_a_shared_chunk_needs_a_free_slot() {
    let config = make_test_config();
    let mut table = ChunkTable::new();
    let mut pool = PageAllocator::new(DeviceId(0), &config, 64, 1, 0);
    let (slot, _) = pool.alloc_slot().unwrap();
    let h = ChunkHandle::new(&mut table, slot);
    let other = h.share(&mut table);
    match other.make_exclusive(&mut table, &mut pool) {
        Err(e) => assert_eq!(e, HipError::OutOfMemory),
        Ok(_) => panic!("no slot was free"),
    }
}

#[test]
fn host_backing_takes_a_slot_of_both_pools_or_of_neither() {
    let config = make_test_config();
    let mut table = ChunkTable::new();
    let mut vram = PageAllocator::new(DeviceId(0), &config, 64, 2, 0);
    let mut host = HostPageAllocator::new(128, 1, Some(0x8000)).unwrap();
    let (h, host_slot) = alloc_with_host_backing(&mut table, &mut vram, &mut host).unwrap();
    assert_eq!(h.slot_index(&table), 0);
    assert_eq!(host_slot, 0);
    assert!(alloc_with_host_backing(&mut table, &mut vram, &mut host).is_err());
    assert_eq!(vram.free_count(), 1);
}

#[test]
fn appending_opens_chunks_and_reset_returns_them() {
    let config = make_test_config();
    let mut table = ChunkTable::new();
    let mut pool = PageAllocator::new(DeviceId(0), &config, 64, 2, 0);
    let mut seq = SequenceState::new(2);
    for t in 0..4 {
        assert!(seq.append_token(&mut table, t, &mut pool).is_ok());
    }
    assert_eq!(seq.chunks.len(), 2);
    assert_eq!(seq.kv_version, 2);
    assert_eq!(seq.append_token(&mut table, 4, &mut pool), Err(HipError::OutOfMemory));
    assert_eq!(seq.seq_len, 4);
    assert_eq!(seq.positions, vec![0, 1, 2, 3]);
    seq.reset(&mut table, &mut pool);
    assert_eq!(seq.seq_len, 0);
    assert_eq!(seq.kv_version, 3);
    assert_eq!(pool.free_count(), 2);
}

#[test]
fn reset_keeps_the_slot_of_a_chunk_that_another_sequence_shares() {
    let config = make_test_config();
    let mut table = ChunkTable::new();
    let mut pool = PageAllocator::new(DeviceId(0), &config, 64, 2, 0);
    let mut a = SequenceState::new(2);
    for t in 0..3 {
        a.append_token(&mut table, t, &mut pool).unwrap();
    }
    let mut b = SequenceState::new(2);
    let shared = a.chunks[0].share(&mut table);
    b.chunks.push(shared);
    b.seq_len = 2;
    a.reset(&mut table, &mut pool);
    assert_eq!(pool.free_count(), 1);
    assert!(pool.is_out(0));
    b.reset(&mut table, &mut pool);
    assert_eq!(pool.free_count(), 2);
}

#[test]
fn quantized_slots_return_to_their_own_pool() {
    let config = make_test_config();
    let mut quant = PageAllocator::new_quantized(DeviceId(0), &config, 64, 3, 0);
    let mut seq = SequenceState::new_quantized(64, 0x7000);
    assert_eq!(seq.staging_buffer, Some(0x7000));
    assert_eq!(SequenceState::staging_bytes(64, &config), chunk_kv_bytes(&config, 64));
    for _ in 0..2 {
        let (slot, _) = quant.alloc_slot().unwrap();
        seq.quant_slots.push(slot);
    }
    assert_eq!(quant.free_count(), 1);
    seq.free_quant_slots(&mut quant);
    assert_eq!(quant.free_count(), 3);
    assert!(seq.quant_slots.is_empty());
}

#[test]
fn a_checkpoint_is_restored_from_where_it_was_saved() {
    let config = make_test_config();
    let mut pool = RecurrentCheckpointPool::new(&config, 2, 0x100000, 0x900000);
    let states: Vec<usize> = (0..18).map(|i| 0x5000 + i * 0x200000).collect();
    let (slot, saved) = save_checkpoint(&mut pool, &states).unwrap();
    assert_eq!(slot, 0);
    assert_eq!(saved.len(), 18);
    let layer = 16 * 128 * 128 * 4;
    assert_eq!(saved[1], ChunkCopy { dst: 0x100000 + layer, src: states[1], bytes: layer });
    let restored = restore_checkpoint(&pool, slot, &states);
    for i in 0..18 {
        assert_eq!(restored[i].src, saved[i].dst);
        assert_eq!(restored[i].dst, saved[i].src);
        assert_eq!(restored[i].bytes, saved[i].bytes);
    }
    assert_eq!(pool.state_bytes(), recurrent_state_bytes(&config));
    assert_eq!(pool.slot_cpu_ptr(1), 0x900000 + recurrent_state_bytes(&config));
}

#[test]
fn a_full_checkpoint_pool_refuses_to_save() {
    let config = make_test_config();
    let mut pool = RecurrentCheckpointPool::new(&config, 1, 0, 0);
    let states = vec![0usize; 18];
    assert!(save_checkpoint(&mut pool, &states).is_ok());
    match save_checkpoint(&mut pool, &states) {
        Err(e) => assert_eq!(e, HipError::OutOfMemory),
        Ok(_) => panic!("the only slot was taken"),
    }
    pool.free(0);
    assert!(save_checkpoint(&mut pool, &states).is_ok());
    assert_eq!(pool.capacity(), 1);
}
