use braidinfer_runtime::config::{
    FfnType, GateType, LayerConfig, LayerType, ModelConfig, RecurrentLayerKind, WeightQuantMode,
};
use braidinfer_runtime::error::ModelError;
use braidinfer_runtime::model::decode::{
    decode_step_persistent_multi_gpu, dump_slots, ensure_moe_workers_started,
    ensure_paged_decode_state, ensure_persistent_worker_spawned, init_multi_gpu_persistent,
    kv_quant_enabled, last_with_opcode, max_paged_chunks, moe_ack_targets, moe_worker_calls,
    needs_gpu0, patch_logits_output, patch_step_signals, position_data, seals_chunk, sendable,
    step_sequence, DecodePath, DispatchStep, MoeDecodeParams, MultiGpuStep, ResultPlace,
    SignalSites, SpawnPlan, OP_LM_HEAD,
};
use braidinfer_runtime::model::instance::{DecodeStep, Model, PrefillPlan};
use braidinfer_runtime::model::kv_layout::{page_table, plane_offsets, row_offset};
use braidinfer_runtime::model::p2p::{
    dispatch_moe_workers_decode_async, segment_instructions, P2pCode,
};
use braidinfer_runtime::model::prefill::{
    prefill_mixed_chunk_paged, prefill_spans, ChunkSpan, PrefillPath, PrefillStep,
};
use braidinfer_runtime::model::segments::{AttnBoundary, MoeBoundary, P2pProgram, Segment};
use braidinfer_runtime::model::warmup::{pattern_arrived, WarmupError, WARMUP_SENTINEL};
use braidinfer_runtime::multi_gpu::{
    peer_outcome, AttnShare, BroadcastPlan, MultiGpuContext, PeerOutcome, PeerPair, PeerStatus,
    PollStep,
};
use braidinfer_runtime::ops::{Buf, Loc, Op, WeightFormat};
use braidinfer_runtime::paged_kv::geometry::chunk_kv_bytes;
use braidinfer_runtime::paged_kv::slots::{DeviceId, HipError};
use braidinfer_runtime::per_batch_dispatch::{AckTarget, Instruction, PerBatchDispatch};

const DENSE: FfnType = FfnType::Dense;

fn experts(width: usize) -> FfnType {
    FfnType::MoE {
        num_experts: 4,
        num_active: 2,
        expert_intermediate_size: width,
        num_shared: 0,
        shared_intermediate_size: 0,
        gate_type: GateType::Softmax,
    }
}

fn config(layers: Vec<(LayerType, FfnType)>) -> ModelConfig {
    ModelConfig {
        num_layers: layers.len(),
        hidden_size: 300,
        intermediate_size: 8,
        vocab_size: 77,
        max_seq_len: 256,
        num_q_heads: 4,
        num_kv_heads: 2,
        head_dim: 4,
        rope_dim: 4,
        mrope_section: (0, 0, 0),
        linear_num_heads: 2,
        linear_num_value_heads: 2,
        linear_key_head_dim: 3,
        linear_value_head_dim: 5,
        linear_conv_kernel_dim: 4,
        has_output_gate: false,
        has_qk_norm: false,
        use_rope: true,
        rms_norm_one_plus_w: false,
        tie_word_embeddings: false,
        moe_latent_size: None,
        weight_quant: WeightQuantMode::Bf16,
        recurrent_kind: RecurrentLayerKind::Gdn,
        rms_norm_eps: 0,
        layers: layers
            .into_iter()
            .map(|(layer_type, ffn_type)| LayerConfig { layer_type, ffn_type })
            .collect(),
    }
}

fn dense() -> ModelConfig {
    config(vec![(LayerType::Attention, DENSE), (LayerType::Gdn, DENSE)])
}

fn mixture() -> ModelConfig {
    config(vec![(LayerType::Attention, experts(8)), (LayerType::Gdn, DENSE)])
}

/// A model with a pool of `chunks` chunks at address 1000.
fn model(config: ModelConfig, chunks: &str) -> Model {
    let mut m = Model::new(config, "model.".to_string(), None);
    let plan = m.ensure_paged_decode_state(false, false, Some(chunks), None);
    m.install_pools(DeviceId(0), &plan, 1000, 0);
    m
}

fn on_gpus(mut m: Model, num: usize) -> Model {
    let (mut ctx, _) = MultiGpuContext::init(num, false).unwrap();
    let share = AttnShare {
        local_nqh: 2,
        local_nkh: 1,
        head_dim: 4,
        max_seq_len: 256,
        hidden_size: 300,
        q_mult: 1,
    };
    let pools: Vec<usize> = (0..num).map(|g| 1_000_000 * (g + 1)).collect();
    ctx.init_attn_buffers(share, &m.config, 64, &pools);
    m.multi_gpu = Some(ctx);
    m
}

/// Slots of the sequence's chunks.
fn slots_of(m: &Model) -> Vec<u32> {
    let s = m.paged.seq.as_ref().unwrap();
    s.chunks.iter().map(|c| c.slot_index(&m.paged.table)).collect()
}

/// Feeds a prompt piece by piece and counts it.
fn feed(
    m: &mut Model,
    tokens: &[u32],
) -> Result<(PrefillPlan, Option<BroadcastPlan>), ModelError> {
    let plan = m.prefill(tokens, false)?;
    for &span in &plan.spans {
        m.prefill_piece(span)?;
    }
    let broadcast = m.prefill_done(tokens.len())?;
    Ok((plan, broadcast))
}

/// Takes a token and counts it.
fn decoded(m: &mut Model, position: u32) -> Result<DecodeStep, ModelError> {
    let step = m.decode_step_persistent(position)?;
    m.step_done(position);
    Ok(step)
}

fn is_oom(e: &ModelError) -> bool {
    matches!(e, ModelError::Hip(HipError::OutOfMemory))
}

#[test]
fn a_model_reports_itself() {
    let m = Model::new(mixture(), "model.".to_string(), None);
    assert!(m.has_moe());
    assert_eq!(m.vocab_size(), 77);
    assert_eq!(m.config().hidden_size, 300);
    assert!(!Model::new(dense(), String::new(), None).has_moe());
    assert!(!m.has_head_parallel());
    assert_eq!(m.decode_step(), DecodePath::SingleGpu);
}

#[test]
fn pools_follow_the_settings() {
    let c = dense();
    assert_eq!(max_paged_chunks(&c), 4);
    let p = ensure_paged_decode_state(&c, true, false, false, false, Some("3"), Some("9"));
    assert_eq!((p.vram_chunks, p.quant_chunks, p.host_chunks), (Some(3), Some(4), Some(9)));
    // Nothing, zero, too much or no number: as many as the longest sequence needs.
    for s in [None, Some("0"), Some("5"), Some("x"), Some("")] {
        let p = ensure_paged_decode_state(&c, false, false, false, false, s, s);
        assert_eq!(p.vram_chunks, Some(4));
        assert_eq!(p.quant_chunks, None);
    }
    let p = ensure_paged_decode_state(&c, false, false, false, false, None, Some("0"));
    assert_eq!(p.host_chunks, None);
    let p = ensure_paged_decode_state(&c, true, true, true, true, Some("3"), Some("9"));
    assert_eq!((p.vram_chunks, p.quant_chunks, p.host_chunks), (None, None, None));
}

#[test]
fn a_prompt_is_cut_into_chunks() {
    let mut m = model(dense(), "4");
    let tokens: Vec<u32> = (0..70).collect();
    let (plan, broadcast) = feed(&mut m, &tokens).unwrap();
    assert_eq!(plan.path, PrefillPath::Paged);
    assert_eq!(
        plan.spans,
        vec![
            ChunkSpan { offset: 0, len: 64, start_pos: 0 },
            ChunkSpan { offset: 64, len: 6, start_pos: 64 },
        ]
    );
    assert_eq!(plan.embeds.len(), 2);
    assert_eq!(plan.embeds[1].len(), 6);
    assert_eq!(plan.embeds[1][2].grid, Some(2));
    assert_eq!(
        plan.embeds[1][2].op,
        Op::Embedding {
            out: Loc { buf: Buf::PrefillHidden, offset: 600 },
            token: 66,
            dim: 300,
        }
    );
    assert!(plan.steps.is_empty());
    assert!(broadcast.is_none());
    assert_eq!(m.paged.seq_len, 70);
    let seq = m.paged.seq.as_ref().unwrap();
    assert_eq!(seq.seq_len, 70);
    assert_eq!(seq.chunks.len(), 2);
    assert_eq!(seq.positions, (0..70).collect::<Vec<i32>>());
    assert_eq!(m.paged.pages.as_ref().unwrap().free_count(), 2);
}

#[test]
fn a_prompt_counts_after_its_last_piece() {
    let mut m = model(dense(), "2");
    let plan = m.prefill(&[1; 130], false).unwrap();
    assert_eq!(m.paged.seq.as_ref().unwrap().seq_len, 0);
    m.prefill_piece(plan.spans[0]).unwrap();
    m.prefill_piece(plan.spans[1]).unwrap();
    // The pieces are in the sequence, the model's own count has not moved.
    let seq = m.paged.seq.as_ref().unwrap();
    assert_eq!((seq.seq_len, seq.chunks.len(), m.paged.seq_len), (128, 2, 0));
    assert_eq!(seq.positions, (0..128).collect::<Vec<i32>>());
    // The third finds the pool dry.
    assert!(is_oom(&m.prefill_piece(plan.spans[2]).err().unwrap()));
    assert!(m.paged.seq.is_none());
    assert_eq!(m.paged.seq_len, 0);
}

#[test]
fn pieces_append_what_the_prompt_would() {
    let mut whole = model(dense(), "4");
    whole.prefill_piece(ChunkSpan { offset: 0, len: 100, start_pos: 0 }).unwrap();
    let mut parts = model(dense(), "4");
    parts.prefill_piece(ChunkSpan { offset: 0, len: 37, start_pos: 0 }).unwrap();
    parts.prefill_piece(ChunkSpan { offset: 37, len: 63, start_pos: 37 }).unwrap();
    assert_eq!(slots_of(&whole), slots_of(&parts));
    let (a, b) = (whole.paged.seq.as_ref().unwrap(), parts.paged.seq.as_ref().unwrap());
    assert_eq!((a.seq_len, a.kv_version), (b.seq_len, b.kv_version));
    assert_eq!(a.positions, b.positions);
}

#[test]
fn a_step_counts_when_it_is_done() {
    let mut m = model(dense(), "2");
    feed(&mut m, &[1; 5]).unwrap();
    m.decode_step_persistent(5).unwrap();
    assert_eq!((m.paged.seq.as_ref().unwrap().seq_len, m.paged.seq_len), (6, 5));
    m.step_done(5);
    assert_eq!(m.paged.seq_len, 6);
}

#[test]
fn an_empty_prompt_is_refused() {
    let m = model(dense(), "4");
    match m.prefill(&[], false) {
        Err(ModelError::MissingWeight(t)) => assert_eq!(t, "empty token sequence"),
        _ => panic!("accepted"),
    }
    assert_eq!(m.paged.seq_len, 0);
}

#[test]
fn a_prompt_beyond_the_pool_gives_the_pool_up() {
    let mut m = model(dense(), "1");
    assert!(feed(&mut m, &[1; 64]).is_ok());
    let e = feed(&mut m, &[1]).err().unwrap();
    assert!(is_oom(&e));
    assert!(m.paged.seq.is_none());
    assert!(m.paged.pages.is_none());
    assert_eq!(m.paged.seq_len, 64);
    assert!(m.read_kv_chunk_slot0().is_none());
}

#[test]
fn a_given_up_pool_is_replaced() {
    let mut m = model(dense(), "1");
    feed(&mut m, &[1; 64]).unwrap();
    assert!(feed(&mut m, &[1]).is_err());
    let plan = m.ensure_paged_decode_state(false, false, Some("2"), None);
    assert_eq!(plan.vram_chunks, Some(2));
    m.install_pools(DeviceId(0), &plan, 1000, 0);
    // The sequence is new; positions follow the model's own count.
    let (plan, _) = feed(&mut m, &[1; 3]).unwrap();
    assert_eq!(plan.spans[0].start_pos, 64);
    let seq = m.paged.seq.as_ref().unwrap();
    assert_eq!((seq.seq_len, m.paged.seq_len), (3, 67));
    assert_eq!(seq.positions, vec![64, 65, 66]);
    m.reset_state();
    assert_eq!(m.paged.seq_len, 0);
    assert_eq!(m.paged.pages.as_ref().unwrap().free_count(), 2);
}

#[test]
fn decoding_goes_on_where_the_prompt_ended() {
    let mut m = model(dense(), "2");
    feed(&mut m, &[5; 63]).unwrap();
    let bytes = chunk_kv_bytes(&m.config, 64);
    assert_eq!(m.read_kv_chunk_slot0(), Some((1000, bytes)));
    // The token at position 63 fills slot 0.
    let step = decoded(&mut m, 63).unwrap();
    assert_eq!(step.position.ids, (63, 63, 63));
    assert_eq!(step.position.workers, 0);
    assert_eq!(step.sealed, Some(1000));
    assert_eq!(m.paged.seq_len, 64);
    let step = decoded(&mut m, 64).unwrap();
    assert_eq!(step.sealed, None);
    assert_eq!(m.paged.seq.as_ref().unwrap().chunks.len(), 2);
    for p in 65..128 {
        decoded(&mut m, p).unwrap();
    }
    let e = decoded(&mut m, 128).err().unwrap();
    assert!(is_oom(&e));
    assert_eq!(m.paged.seq_len, 128);
    assert_eq!(m.paged.seq.as_ref().unwrap().seq_len, 128);
}

#[test]
fn a_token_disturbs_no_other_chunk() {
    let mut m = model(dense(), "4");
    feed(&mut m, &[1; 64]).unwrap();
    let first = slots_of(&m);
    assert_eq!(first.len(), 1);
    let version = m.paged.seq.as_ref().unwrap().kv_version;
    decoded(&mut m, 64).unwrap();
    let second = slots_of(&m);
    assert_eq!(second[0], first[0]);
    assert_ne!(second[1], first[0]);
    assert_eq!(m.paged.seq.as_ref().unwrap().kv_version, version + 1);
    // A token in an open chunk changes neither slots nor version.
    decoded(&mut m, 65).unwrap();
    assert_eq!(slots_of(&m), second);
    assert_eq!(m.paged.seq.as_ref().unwrap().kv_version, version + 1);
}

#[test]
fn versions_run_out_per_chunk_only() {
    let mut m = model(dense(), "4");
    feed(&mut m, &[1; 10]).unwrap();
    m.paged.seq.as_mut().unwrap().kv_version = u32::MAX;
    decoded(&mut m, 10).unwrap();
    feed(&mut m, &[1; 53]).unwrap();
    let s = m.paged.seq.as_ref().unwrap();
    assert_eq!((s.seq_len, s.kv_version, s.chunks.len()), (64, u32::MAX, 1));
}

#[test]
fn workers_start_unversioned() {
    let m = on_gpus(model(mixture(), "4"), 2);
    for w in &m.multi_gpu.as_ref().unwrap().workers {
        if let Some(p) = &w.pages {
            assert_eq!((p.seq.kv_version, p.seq.seq_len), (0, 0));
            assert!(p.seq.staging_buffer.is_none());
        }
    }
}

#[test]
fn a_paged_step_compiles_once() {
    let mut m = model(dense(), "1");
    let step = m.decode_step_paged(0, None).unwrap();
    assert!(step.compile);
    assert_eq!(step.position.ids, (0, 0, 0));
    assert!(!m.decode_step_paged(1, Some(false)).unwrap().compile);
    assert!(!m.decode_step_paged_quantized(2, Some(true)).unwrap().compile);
    assert_eq!(m.paged.seq.as_ref().unwrap().seq_len, 3);
    // The model's own count is the caller's business.
    assert_eq!(m.paged.seq_len, 0);
}

#[test]
fn quantized_kv_needs_a_single_gpu() {
    let mut m = on_gpus(model(mixture(), "4"), 2);
    match m.decode_step_paged_quantized(0, None) {
        Err(ModelError::InvalidConfig(t)) => {
            assert_eq!(t, "KV_QUANT is not supported in multi-GPU mode")
        }
        _ => panic!("accepted"),
    }
    assert_eq!(m.paged.seq.as_ref().unwrap().seq_len, 0);
    assert_eq!(m.decode_step(), DecodePath::MultiGpu);
    assert!(m.has_head_parallel());
    assert_eq!(m.set_position(9).workers, 2);
}

#[test]
fn a_reset_returns_every_slot() {
    let mut m = model(dense(), "4");
    feed(&mut m, &[1; 130]).unwrap();
    assert_eq!(m.paged.pages.as_ref().unwrap().free_count(), 1);
    let lengths = m.reset_state();
    assert_eq!(lengths.recurrent, 2 * 3 * 5);
    assert!(lengths.mamba.is_none());
    assert_eq!(m.paged.seq_len, 0);
    assert_eq!(m.paged.pages.as_ref().unwrap().free_count(), 4);
    let seq = m.paged.seq.as_ref().unwrap();
    assert!(seq.chunks.is_empty());
    assert!(seq.positions.is_empty());
    // The sequence starts over.
    feed(&mut m, &[1; 256]).unwrap();
    assert_eq!(m.paged.seq_len, 256);
}

#[test]
fn workers_mirror_the_prompt() {
    let mut m = on_gpus(model(mixture(), "4"), 3);
    let (plan, broadcast) = feed(&mut m, &[1; 70]).unwrap();
    assert_eq!(plan.path, PrefillPath::Batched);
    let b = broadcast.unwrap();
    let ctx = m.multi_gpu.as_ref().unwrap();
    for g in 1..3 {
        let pages = ctx.workers[g].pages.as_ref().unwrap();
        assert_eq!(pages.seq.seq_len, 70);
        assert_eq!(pages.seq.positions, (0..70).collect::<Vec<i32>>());
        assert_eq!(ctx.workers[g].compute_done_seq, 1);
    }
    // GPU 0 holds the chunks already.
    assert_eq!(ctx.workers[0].pages.as_ref().unwrap().seq.seq_len, 0);
    let bytes = chunk_kv_bytes(&m.config, 64);
    assert_eq!(b.rounds.len(), 2);
    for (i, round) in b.rounds.iter().enumerate() {
        assert_eq!(round.len(), 2);
        for c in round {
            assert_eq!(c.bytes, bytes);
            assert_eq!(c.src, 1000 + i * bytes);
            assert_eq!(c.dst, 1_000_000 * (c.gpu + 1) + i * bytes);
        }
    }
    let raised: Vec<(usize, u32)> = b.signals.iter().map(|s| (s.gpu, s.value)).collect();
    assert_eq!(raised, vec![(1, 1), (2, 1)]);
}

#[test]
fn a_dense_model_does_not_broadcast() {
    let mut m = on_gpus(model(dense(), "4"), 2);
    let (_, broadcast) = feed(&mut m, &[1; 10]).unwrap();
    assert!(broadcast.is_none());
    let ctx = m.multi_gpu.as_ref().unwrap();
    assert_eq!(ctx.workers[1].pages.as_ref().unwrap().seq.seq_len, 0);
}

#[test]
fn a_checkpoint_comes_back() {
    let mut m = model(dense(), "1");
    match m.restore_recurrent_checkpoint(0, &[500]) {
        Err(ModelError::MissingWeight(t)) => assert_eq!(t, "checkpoint_pool not initialized"),
        _ => panic!("accepted"),
    }
    let (slot, saved) = m.save_recurrent_checkpoint(70_000, 90_000, &[500]).unwrap();
    assert_eq!(slot, 0);
    let restored = m.restore_recurrent_checkpoint(slot, &[500]).unwrap();
    assert_eq!(saved.len(), 1);
    assert_eq!(saved[0].src, 500);
    assert_eq!(saved[0].dst, 70_000);
    assert_eq!(saved[0].bytes, 2 * 3 * 5 * 4);
    assert_eq!((restored[0].src, restored[0].dst), (saved[0].dst, saved[0].src));
    assert_eq!(restored[0].bytes, saved[0].bytes);
}

#[test]
fn a_dump_needs_the_program() {
    assert!(Model::read_paged_dump(true).is_ok());
    match Model::read_paged_dump(false) {
        Err(ModelError::MissingWeight(t)) => assert_eq!(t, "megakernel_paged not initialized"),
        _ => panic!("accepted"),
    }
}

#[test]
fn spans_cover_the_prompt() {
    let spans = prefill_spans(130, 10);
    let got: Vec<(usize, usize, u32)> =
        spans.iter().map(|s| (s.offset, s.len, s.start_pos)).collect();
    assert_eq!(got, vec![(0, 64, 10), (64, 64, 74), (128, 2, 138)]);
    assert!(prefill_spans(0, 10).is_empty());
}

#[test]
fn expert_layers_interrupt_segments() {
    let c = config(vec![
        (LayerType::Gdn, DENSE),
        (LayerType::Attention, DENSE),
        (LayerType::Attention, experts(8)),
        (LayerType::MoeFfn, experts(8)),
        (LayerType::Gdn, DENSE),
    ]);
    assert_eq!(
        prefill_mixed_chunk_paged(&c, false),
        vec![
            PrefillStep::Segment { from: 0, to: 2, head: false },
            PrefillStep::Segment { from: 2, to: 3, head: false },
            PrefillStep::Moe { layer: 2 },
            PrefillStep::Moe { layer: 3 },
            PrefillStep::Segment { from: 4, to: 5, head: true },
        ]
    );
    let c = config(vec![(LayerType::Attention, experts(8))]);
    assert_eq!(
        prefill_mixed_chunk_paged(&c, true),
        vec![
            PrefillStep::Segment { from: 0, to: 1, head: false },
            PrefillStep::Moe { layer: 0 },
            PrefillStep::Capture { layer: 0 },
            PrefillStep::Head,
        ]
    );
}

#[test]
fn kv_rows_have_their_place() {
    let c = config(vec![(LayerType::Attention, DENSE), (LayerType::Attention, DENSE)]);
    // A plane is 64 tokens of 2 heads of 4 floats.
    assert_eq!(plane_offsets(&c, 0), (0, 2048));
    assert_eq!(plane_offsets(&c, 1), (4096, 6144));
    assert_eq!(chunk_kv_bytes(&c, 64), 8192);
    assert_eq!(row_offset(&c, 1, 3), 1024 + 48);
}

#[test]
fn the_page_table_lists_addresses() {
    let mut m = model(dense(), "4");
    feed(&mut m, &[1; 129]).unwrap();
    let bytes = chunk_kv_bytes(&m.config, 64) as u64;
    let (seq, pages) = (m.paged.seq.as_ref().unwrap(), m.paged.pages.as_ref().unwrap());
    assert_eq!(
        page_table(seq, &m.paged.table, pages),
        vec![1000, 1000 + bytes, 1000 + 2 * bytes]
    );
}

#[test]
fn the_worker_is_created_once() {
    assert_eq!(ensure_persistent_worker_spawned(true, true, false, None), None);
    assert_eq!(
        ensure_persistent_worker_spawned(false, false, false, Some("1")),
        Some(SpawnPlan {
            compile_program: true,
            quantized: true,
            dispatch: DispatchStep::Create,
        })
    );
    let p = ensure_persistent_worker_spawned(false, true, false, Some("yes")).unwrap();
    assert_eq!(p.dispatch, DispatchStep::AddDevice);
    assert!(!p.quantized);
    let p = ensure_persistent_worker_spawned(false, true, true, None).unwrap();
    assert_eq!(p.dispatch, DispatchStep::Keep);
    assert!(kv_quant_enabled(Some("1")));
    assert!(!kv_quant_enabled(Some("11")));
    assert!(!kv_quant_enabled(None));
}

#[test]
fn expert_workers_start_on_the_other_gpus() {
    let c = config(vec![(LayerType::Attention, experts(8)), (LayerType::Gdn, experts(20))]);
    let p = ensure_moe_workers_started(&c, false, true, Some(3)).unwrap();
    assert_eq!(p.num_gpus, 3);
    assert_eq!(p.worker_devices, vec![DeviceId(1), DeviceId(2)]);
    assert!(p.compile_p2p);
    assert_eq!(p.max_expert_size, 20);
    assert_eq!(p.gate_up_in_dim, 300);
    let p = ensure_moe_workers_started(&c, false, true, None).unwrap();
    assert_eq!(p.num_gpus, 1);
    assert!(p.worker_devices.is_empty());
    assert!(!p.compile_p2p);
    assert!(ensure_moe_workers_started(&c, true, true, Some(3)).is_none());
    assert!(ensure_moe_workers_started(&c, false, false, Some(3)).is_none());
    let create = |total: usize| MultiGpuStep::Create { total };
    assert_eq!(init_multi_gpu_persistent(3, false, false), create(3));
    assert_eq!(init_multi_gpu_persistent(0, false, false), create(1));
    assert_eq!(init_multi_gpu_persistent(3, true, false), MultiGpuStep::AddDevice);
    assert_eq!(init_multi_gpu_persistent(3, true, true), MultiGpuStep::Keep);
    assert!(needs_gpu0(None));
    assert!(needs_gpu0(Some(false)));
    assert!(!needs_gpu0(Some(true)));
}

#[test]
fn a_dense_model_cannot_span_gpus() {
    assert!(decode_step_persistent_multi_gpu(true).is_ok());
    match decode_step_persistent_multi_gpu(false) {
        Err(ModelError::InvalidConfig(t)) => {
            assert!(t.starts_with("decode_step_persistent_multi_gpu reached without"))
        }
        _ => panic!("accepted"),
    }
}

#[test]
fn the_widest_expert_counts() {
    let c = config(vec![(LayerType::Attention, DENSE)]);
    let p = ensure_moe_workers_started(&c, false, true, None).unwrap();
    assert_eq!(p.max_expert_size, 0);
}

/// An instruction of eight words.
fn word8(op: u64) -> Instruction {
    Instruction { words: vec![op, 0, 0, 0, 0, 0, 0, 0] }
}

#[test]
fn a_step_patches_signals_and_logits() {
    let mut insts: Vec<Instruction> = (1..6).map(word8).collect();
    insts.push(word8(OP_LM_HEAD as u64));
    insts.push(word8(OP_LM_HEAD as u64));
    insts.push(word8(0));
    assert_eq!(sendable(&insts), 7);
    assert_eq!(last_with_opcode(&insts, OP_LM_HEAD), Some(6));
    assert_eq!(last_with_opcode(&insts, 99), None);
    let sites = SignalSites { attn_flushes: &[0], moe_copies: &[1, 2], moe_sums: &[2, 3] };
    patch_step_signals(&mut insts, &sites, 41);
    assert_eq!(step_sequence(41), 42);
    assert_eq!(insts[0].words[7], 42);
    assert_eq!(insts[1].words[7], 42);
    assert_eq!((insts[2].words[6], insts[2].words[7]), (42, 42));
    assert_eq!((insts[3].words[6], insts[3].words[7]), (42, 0));
    assert_eq!(insts[4].words, word8(5).words);
    assert_eq!(patch_logits_output(&mut insts, 0xABCD), 6);
    assert_eq!(insts[6].words[1], 0xABCD);
    assert_eq!(insts[5].words[1], 0);
}

#[test]
fn small_facts_about_steps() {
    assert!(seals_chunk(63));
    assert!(!seals_chunk(64));
    assert!(seals_chunk(127));
    assert_eq!(dump_slots(10), 10);
    assert_eq!(dump_slots(5000), 4096);
    assert_eq!(position_data(7), (7, 7, 7));
    // Positions beyond i32 wrap as the device reads them.
    assert_eq!(position_data(u32::MAX), (-1, -1, -1));
}

#[test]
fn each_worker_gets_a_pass() {
    let p = MoeDecodeParams {
        hidden_size: 300,
        k: 2,
        expert_intermediate_size: 8,
        has_gate_proj: true,
        relu_sq: false,
        gate_up_in_dim: 0,
    };
    let calls = moe_worker_calls(&p, 5, 2, false, 42);
    assert_eq!(calls.len(), 2);
    assert_eq!(calls[1].gpu, 2);
    assert_eq!(calls[1].layer, 5);
    assert_eq!(calls[1].out, ResultPlace::OutputSlot { offset: 600 });
    assert_eq!(calls[1].gate_up_in_dim, 300);
    assert_eq!(calls[1].sequence, 42);
    let calls = moe_worker_calls(&p, 5, 2, true, 42);
    assert_eq!(calls[0].out, ResultPlace::WorkerLocal);
}

#[test]
fn a_layer_waits_for_the_asked_launches() {
    let workers = || vec![AckTarget { gpu: 1, seq: 4 }, AckTarget { gpu: 2, seq: 5 }];
    let gpus = |v: Vec<AckTarget>| v.iter().map(|t| (t.gpu, t.seq)).collect::<Vec<_>>();
    assert_eq!(
        gpus(moe_ack_targets(workers(), Some(9), false, false)),
        vec![(1, 4), (2, 5), (0, 9)]
    );
    assert_eq!(gpus(moe_ack_targets(workers(), Some(9), false, true)), vec![(0, 9)]);
    assert_eq!(gpus(moe_ack_targets(workers(), Some(9), true, false)), vec![]);
    assert_eq!(gpus(moe_ack_targets(workers(), None, false, false)), vec![(1, 4), (2, 5)]);
}

#[test]
fn programs_are_cut_at_boundaries() {
    let p = P2pProgram {
        opcodes: vec![1, 2, 3, 4, 5, 6, 0, 7],
        moe: vec![MoeBoundary { index: 4, layer: 9 }],
        attn: vec![AttnBoundary { flush: 1, resume: 3 }],
        head_parallel: true,
        distributed_qkv: true,
    };
    let expected = vec![
        Segment::Attention { from: 0, to: 2, attn: 0, gather: None },
        Segment::Moe { from: 3, to: 5, layer: 9, gather: Some(0) },
        Segment::Tail { from: 5, to: 6, gather: None },
    ];
    assert_eq!(p.plan_segments(), expected);
    // Where GPU 0 projected all heads, it goes on after the attention instruction.
    let p = P2pProgram { distributed_qkv: false, ..p };
    assert_eq!(
        p.plan_segments()[1],
        Segment::Moe { from: 4, to: 5, layer: 9, gather: Some(0) }
    );
    let p = P2pProgram { head_parallel: false, ..p };
    assert_eq!(
        p.plan_segments(),
        vec![
            Segment::Moe { from: 0, to: 5, layer: 9, gather: None },
            Segment::Tail { from: 5, to: 6, gather: None },
        ]
    );
}

#[test]
fn a_resume_passes_over_an_expert_boundary() {
    // Instruction 2 lies between the flush and its resume: the boundary there is never
    // served, and neither is the one after it.
    let p = P2pProgram {
        opcodes: vec![1, 2, 3, 4, 5, 0],
        moe: vec![MoeBoundary { index: 2, layer: 0 }, MoeBoundary { index: 4, layer: 1 }],
        attn: vec![AttnBoundary { flush: 1, resume: 3 }],
        head_parallel: true,
        distributed_qkv: true,
    };
    assert_eq!(
        p.plan_segments(),
        vec![
            Segment::Attention { from: 0, to: 2, attn: 0, gather: None },
            Segment::Tail { from: 3, to: 5, gather: Some(0) },
        ]
    );
    let p = P2pProgram { moe: vec![MoeBoundary { index: 4, layer: 1 }], ..p };
    assert_eq!(
        p.plan_segments(),
        vec![
            Segment::Attention { from: 0, to: 2, attn: 0, gather: None },
            Segment::Moe { from: 3, to: 5, layer: 1, gather: Some(0) },
        ]
    );
}

fn code() -> P2pCode {
    let mut instructions: Vec<Instruction> = (1..6).map(word8).collect();
    instructions.push(word8(OP_LM_HEAD as u64));
    instructions.push(word8(0));
    P2pCode {
        instructions,
        multi_gpu_attn_boundaries: vec![AttnBoundary { flush: 1, resume: 3 }],
        mrope_indices: vec![1],
        gqa_attn_indices: vec![2],
        barrier_layer_map: vec![MoeBoundary { index: 4, layer: 0 }],
        moe_act_copies: vec![3],
        moe_sums: vec![4],
        paged: true,
    }
}

#[test]
fn a_peer_step_prepares_and_cuts_the_program() {
    let mut m = on_gpus(model(mixture(), "1"), 2);
    let mut c = code();
    let step = m.decode_step_p2p(&mut c, 0, 555).unwrap();
    // The token is taken; it counts once the step has run.
    assert_eq!((m.paged.seq.as_ref().unwrap().seq_len, m.paged.seq_len), (1, 0));
    m.step_done(0);
    assert_eq!(m.paged.seq_len, 1);
    assert_eq!(step.position.workers, 2);
    assert!(step.update_tables);
    assert!(step.program.head_parallel);
    assert!(step.program.distributed_qkv);
    assert_eq!(
        step.segments,
        vec![
            Segment::Attention { from: 0, to: 2, attn: 0, gather: None },
            Segment::Moe { from: 3, to: 5, layer: 0, gather: Some(0) },
            Segment::Tail { from: 5, to: 6, gather: None },
        ]
    );
    assert_eq!(c.instructions[1].words[7], 1);
    assert_eq!(c.instructions[3].words[7], 1);
    assert_eq!(c.instructions[4].words[6], 1);
    assert_eq!(c.instructions[5].words[1], 555);
    for p in 1..64 {
        m.decode_step_p2p(&mut c, p, 555).unwrap();
        m.step_done(p);
    }
    let e = m.decode_step_p2p(&mut c, 64, 555).err().unwrap();
    assert!(is_oom(&e));
    assert_eq!(m.paged.seq_len, 64);
}

#[test]
fn a_segment_runs_after_what_it_gathers() {
    let insts: Vec<Instruction> = (1..6).map(word8).collect();
    let r = segment_instructions(&insts, 2, 4, vec![word8(70), word8(71)]);
    let ops: Vec<u64> = r.iter().map(|i| i.words[0]).collect();
    assert_eq!(ops, vec![70, 71, 3, 4]);
}

#[test]
fn expert_passes_go_to_their_workers() {
    let mut d =
        PerBatchDispatch::init_with_total(3, &[DeviceId(1), DeviceId(2)], &[1, 1], 48, 1024);
    let (launches, targets) =
        dispatch_moe_workers_decode_async(&mut d, &vec![word8(8), word8(9)], Some(3), false, false);
    assert_eq!(launches.len(), 2);
    assert_eq!(launches[1].device, DeviceId(2));
    assert_eq!(launches[1].words[0], 9);
    let got: Vec<(usize, u32)> = targets.iter().map(|t| (t.gpu, t.seq)).collect();
    assert_eq!(got, vec![(1, 1), (2, 1), (0, 3)]);
    let (_, targets) =
        dispatch_moe_workers_decode_async(&mut d, &vec![word8(8)], None, false, false);
    let got: Vec<(usize, u32)> = targets.iter().map(|t| (t.gpu, t.seq)).collect();
    assert_eq!(got, vec![(1, 2)]);
}

#[test]
fn warm_up_reaches_every_worker() {
    let single = model(mixture(), "1");
    let mut none = PerBatchDispatch::init_with_total(2, &[], &[], 48, 1024);
    let e = single.minimal_mailbox_warmup_empty_packet(&mut none).err().unwrap();
    assert_eq!(e, WarmupError::SingleGpu);
    assert_eq!(e.message(), "single-gpu-fallback");
    let m = on_gpus(model(mixture(), "1"), 2);
    let e = m.minimal_mailbox_warmup_empty_packet(&mut none).err().unwrap();
    assert_eq!(e, WarmupError::NoLiveWorkers);
    assert_eq!(e.message(), "no live workers after spawn");
    let mut d =
        PerBatchDispatch::init_with_total(3, &[DeviceId(0), DeviceId(2)], &[1, 1], 48, 1024);
    let fired = m.minimal_mailbox_warmup_empty_packet(&mut d).unwrap();
    assert_eq!(fired.iter().map(|f| f.gpu).collect::<Vec<_>>(), vec![0, 2]);
    assert!(fired.iter().all(|f| f.launch.num_inst == 0 && f.launch.seq == 1));
    let fired = m.minimal_mailbox_warmup_no_prefill(&mut d, &[word8(3)]).unwrap();
    assert!(fired.iter().all(|f| f.launch.num_inst == 1 && f.launch.seq == 2));
}

#[test]
fn a_warm_up_pattern_is_recognised() {
    let bits = |v: [f32; 4]| v.map(|x| x.to_bits());
    assert!(pattern_arrived(&bits([1.0, 2.0, 3.0, 4.0])));
    assert!(!pattern_arrived(&bits([1.0, 2.0, 3.0, 5.0])));
    assert!(!pattern_arrived(&[WARMUP_SENTINEL; 4]));
}

#[test]
fn gpus_come_up_in_pairs() {
    assert!(MultiGpuContext::init(1, false).is_none());
    let (ctx, up) = MultiGpuContext::init(3, false).unwrap();
    assert_eq!(ctx.workers.len(), 3);
    assert_eq!(ctx.workers[2].device, DeviceId(2));
    assert_eq!(up.pairs.len(), 6);
    assert_eq!(up.pairs[0], PeerPair { from: 0, to: 1 });
    assert_eq!(up.pairs[5], PeerPair { from: 2, to: 1 });
    assert_eq!(up.warm_order, vec![0, 1, 2]);
    let (_, up) = MultiGpuContext::init(3, true).unwrap();
    assert_eq!(up.warm_order, vec![2, 1, 0]);
}

#[test]
fn only_an_unknown_status_is_a_failure() {
    assert_eq!(peer_outcome(false, PeerStatus::Success), PeerOutcome::Unavailable);
    assert_eq!(peer_outcome(true, PeerStatus::Success), PeerOutcome::Enabled);
    assert_eq!(peer_outcome(true, PeerStatus::AlreadyEnabled), PeerOutcome::Enabled);
    assert_eq!(peer_outcome(true, PeerStatus::InvalidDevice), PeerOutcome::Enabled);
    assert_eq!(
        peer_outcome(true, PeerStatus::Other { code: 3 }),
        PeerOutcome::Failed { code: 3 }
    );
}

#[test]
fn attention_buffers_follow_the_share() {
    let share = AttnShare {
        local_nqh: 3,
        local_nkh: 2,
        head_dim: 4,
        max_seq_len: 130,
        hidden_size: 300,
        q_mult: 2,
    };
    let b = share.attn_buffers(64);
    assert_eq!((b.attn_q, b.attn_out, b.attn_q_gate), (12, 12, 24));
    assert_eq!((b.attn_k, b.attn_v), (8, 8));
    assert_eq!(b.attn_normed, 300);
    assert_eq!(b.attn_gate, Some(12));
    assert_eq!((b.max_paged_chunks, b.page_table), (3, 3));
    assert_eq!(b.position_table, 390);
    let b = AttnShare { q_mult: 1, ..share }.attn_buffers(64);
    assert_eq!(b.attn_gate, None);
}

#[test]
fn weight_rows_are_cut_by_bytes() {
    let s = MultiGpuContext::copy_weight_slice(WeightFormat::Rnf4G128, 2, 3, 200);
    assert_eq!((s.byte_offset, s.byte_len), (528, 792));
    assert_eq!((s.out_dim, s.in_dim), (3, 200));
    let s = MultiGpuContext::copy_weight_slice(WeightFormat::PcG32Q4, 1, 1, 33);
    assert_eq!((s.byte_offset, s.byte_len), (40, 40));
    let s = MultiGpuContext::copy_weight_slice(WeightFormat::Bf16, 0, 5, 10);
    assert_eq!((s.byte_offset, s.byte_len), (0, 100));
    assert_eq!(MultiGpuContext::peer_copy_blocks(257), 2);
}

#[test]
fn a_flag_is_polled_until_it_times_out() {
    assert_eq!(MultiGpuContext::poll_flag(5, 5, 99), PollStep::Done);
    assert_eq!(MultiGpuContext::poll_flag(4, 5, 30), PollStep::Again);
    assert_eq!(MultiGpuContext::poll_flag(4, 5, 31), PollStep::TimedOut);
}
