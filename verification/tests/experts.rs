use braidinfer_runtime::config::{
    FfnType, GateType, LayerConfig, LayerType, ModelConfig, RecurrentLayerKind, WeightQuantMode,
};
use braidinfer_runtime::error::ModelError;
use braidinfer_runtime::moe_p2p::{
    build_layer_configs, layer_config, ExpertBases, FfnCall, GpuMemory, MoeExpertEntry,
    MoeP2pContext, P2pBuffer, PlacedExperts, ZeroFill,
};
use braidinfer_runtime::moe_weights::distribute::{
    distribute_moe_weights_from_bqnt, distribute_moe_weights_from_ref, ByteMove, ExpertBuffer,
    ExpertMove, LoadedExperts, PackedMove,
};
use braidinfer_runtime::moe_weights::layer::gate_up_in_dim;
use braidinfer_runtime::moe_weights::names::{ExpertPart, ExpertScheme, MoeName};
use braidinfer_runtime::ops::WeightFormat;
use braidinfer_runtime::paged_kv::slots::DeviceId;
use braidinfer_runtime::tensors::{PackedEntry, PackedIndex, PackedInfo};

fn loaded(num_experts: usize) -> LoadedExperts {
    LoadedExperts {
        num_experts,
        inter: 8,
        has_gate_proj: true,
        gate_up_format: WeightFormat::Bf16,
        gate_up_in_dim: None,
        down_format: WeightFormat::Bf16,
    }
}

fn packed(name: &str, bytes: usize) -> PackedEntry {
    PackedEntry {
        name: name.to_string(),
        info: PackedInfo {
            code: 2,
            format: Some(WeightFormat::PcG32Q4),
            out_features: 8,
            in_features: 64,
            data_offset: 0,
            data_bytes: bytes,
        },
    }
}

fn index(entries: Vec<PackedEntry>) -> PackedIndex {
    PackedIndex { entries, data_start: 0 }
}

fn missing_text(e: ModelError) -> String {
    match e {
        ModelError::MissingWeight(t) => t,
        other => panic!("not a missing weight: {:?}", other),
    }
}

fn invalid_text(e: ModelError) -> String {
    match e {
        ModelError::InvalidConfig(t) => t,
        other => panic!("not a configuration error: {:?}", other),
    }
}

#[test]
fn loaded_experts_go_round_robin() {
    let (d, moves) = distribute_moe_weights_from_ref(&loaded(5), 3, 16, 0).unwrap();
    assert_eq!(d.expert_device, vec![0, 1, 2, 0, 1]);
    // Gate and up: 16 rows of 16 columns at 2 bytes. Down: 16 rows of 8 columns.
    assert_eq!(d.gate_up_expert_stride, 512);
    assert_eq!(d.down_expert_stride, 256);
    assert_eq!(d.gate_up_row_stride, 32);
    assert_eq!(d.gate_up_in_dim, 16);
    // The first GPU keeps its experts where they were loaded.
    assert_eq!(d.gpus[0].slot_map, vec![Some(0), None, None, Some(3), None]);
    assert_eq!(d.gpus[0].gate_up_bytes, 0);
    assert_eq!(d.gpus[0].local_expert_count, 2);
    assert_eq!(d.gpus[1].slot_map, vec![None, Some(0), None, None, Some(1)]);
    assert_eq!(d.gpus[1].gate_up_bytes, 1024);
    assert_eq!(d.gpus[1].down_bytes, 512);
    assert_eq!(d.gpus[2].local_expert_count, 1);
    assert_eq!(moves.len(), 3);
    assert_eq!(
        moves[2],
        ExpertMove {
            expert: 4,
            gpu: 1,
            gate_up: ByteMove { src: 2048, dst: 512, bytes: 512 },
            down: ByteMove { src: 1024, dst: 256, bytes: 256 },
        }
    );
}

#[test]
fn experts_spread_evenly() {
    for num in 1..6usize {
        for start in 0..num {
            let (d, _) = distribute_moe_weights_from_ref(&loaded(13), num, 16, start).unwrap();
            let counts: Vec<usize> =
                d.gpus[start..].iter().map(|g| g.local_expert_count).collect();
            let most = *counts.iter().max().unwrap();
            let least = *counts.iter().min().unwrap();
            assert!(most - least <= 1);
            let total: usize = d.gpus.iter().map(|g| g.local_expert_count).sum();
            assert_eq!(total, 13);
            for g in &d.gpus[..start] {
                assert_eq!(g.local_expert_count, 0);
            }
        }
    }
}

#[test]
fn slots_on_a_gpu_are_distinct() {
    let (d, _) = distribute_moe_weights_from_ref(&loaded(17), 4, 16, 1).unwrap();
    for g in &d.gpus[1..] {
        let slots: Vec<usize> = g.slot_map.iter().filter_map(|s| *s).collect();
        let expected: Vec<usize> = (0..g.local_expert_count).collect();
        assert_eq!(slots, expected);
    }
}

#[test]
fn the_first_gpu_must_exist() {
    let e = distribute_moe_weights_from_ref(&loaded(4), 2, 16, 2).err().unwrap();
    assert_eq!(invalid_text(e), "start_gpu 2 must be less than num_devices 2");
    let e = distribute_moe_weights_from_bqnt(4, 8, true, &index(vec![]), 0, "", 2, 5)
        .err()
        .unwrap();
    assert_eq!(invalid_text(e), "start_gpu 5 must be less than num_devices 2");
}

#[test]
fn a_recorded_width_wins_over_the_hidden_size() {
    let mut moe = loaded(2);
    moe.gate_up_in_dim = Some(32);
    moe.has_gate_proj = false;
    let (d, _) = distribute_moe_weights_from_ref(&moe, 2, 16, 0).unwrap();
    assert_eq!(d.gate_up_in_dim, 32);
    assert_eq!(d.gate_up_expert_stride, 8 * 64);
    assert_eq!(d.down_expert_stride, 32 * 16);
}

#[test]
fn fused_experts_are_cut_from_one_tensor() {
    let ix = index(vec![
        packed("model.layers.3.mlp.experts.gate_up_proj", 400),
        packed("model.layers.3.mlp.experts.down_proj", 200),
    ]);
    let (d, moves) =
        distribute_moe_weights_from_bqnt(4, 8, true, &ix, 3, "model.", 2, 0).unwrap();
    assert_eq!(d.gate_up_expert_stride, 100);
    assert_eq!(d.down_expert_stride, 50);
    assert_eq!(d.gate_up_in_dim, 64);
    assert_eq!(d.gate_up_row_stride, 40);
    assert_eq!(d.weight_format, WeightFormat::PcG32Q4);
    assert_eq!(d.gpus[0].gate_up_bytes, 200);
    assert_eq!(d.gpus[0].slot_map, vec![Some(0), None, Some(1), None]);
    assert_eq!(moves.len(), 8);
    assert_eq!(
        moves[6],
        PackedMove {
            name: MoeName::BareFusedGateUp,
            gpu: 1,
            into: ExpertBuffer::GateUp,
            src: 300,
            dst: 100,
            bytes: 100,
        }
    );
    assert_eq!(moves[7].into, ExpertBuffer::Down);
    assert_eq!(moves[7].src, 150);
}

#[test]
fn separate_experts_are_read_one_tensor_each() {
    let mut entries = Vec::new();
    for e in 0..2 {
        for part in ["gate", "up", "down"] {
            entries.push(packed(
                &format!("layers.0.mixer.experts.{e}.{part}_proj.weight"),
                if part == "down" { 30 } else { 20 },
            ));
        }
    }
    let ix = index(entries);
    let (d, moves) = distribute_moe_weights_from_bqnt(2, 8, true, &ix, 0, "", 2, 1).unwrap();
    assert_eq!(d.expert_device, vec![1, 1]);
    assert_eq!(d.gate_up_expert_stride, 40);
    assert_eq!(d.down_expert_stride, 30);
    assert_eq!(d.gpus[0].gate_up_bytes, 0);
    assert_eq!(d.gpus[1].gate_up_bytes, 80);
    assert_eq!(moves.len(), 6);
    let up = MoeName::Expert { scheme: ExpertScheme::Bare, part: ExpertPart::Up, expert: 1 };
    assert_eq!(
        moves[4],
        PackedMove { name: up, gpu: 1, into: ExpertBuffer::GateUp, src: 0, dst: 60, bytes: 20 }
    );
    assert_eq!(moves[5].dst, 30);
}

#[test]
fn a_missing_expert_tensor_is_named() {
    let e = distribute_moe_weights_from_bqnt(2, 8, true, &index(vec![]), 7, "m.", 2, 0)
        .err()
        .unwrap();
    assert_eq!(missing_text(e), "m.layers.7.mlp.experts.0.up_proj.weight");

    let ix = index(vec![packed("layers.0.mlp.experts.gate_up_proj", 40)]);
    let e = distribute_moe_weights_from_bqnt(2, 8, true, &ix, 0, "", 2, 0).err().unwrap();
    assert_eq!(missing_text(e), "layers.0.mlp.experts.down_proj");

    let ix = index(vec![
        packed("layers.0.mlp.experts.0.gate_proj.weight", 20),
        packed("layers.0.mlp.experts.0.up_proj.weight", 20),
        packed("layers.0.mlp.experts.0.down_proj.weight", 20),
    ]);
    let e = distribute_moe_weights_from_bqnt(2, 8, true, &ix, 0, "", 2, 0).err().unwrap();
    assert_eq!(missing_text(e), "layers.0.mlp.experts.1.gate_proj.weight");
}

#[test]
fn an_unknown_format_code_is_reported() {
    let mut entry = packed("layers.0.mlp.experts.gate_up_proj", 40);
    entry.info.format = None;
    entry.info.code = 9;
    let e = distribute_moe_weights_from_bqnt(2, 8, true, &index(vec![entry]), 0, "", 2, 0)
        .err()
        .unwrap();
    assert_eq!(
        missing_text(e),
        "layers.0.mlp.experts.gate_up_proj: not a linear bqnt format code 9"
    );
}

#[test]
fn buffer_sizes_follow_the_model() {
    let b = MoeP2pContext::buffers(3, 128, 64, 96, 5);
    assert_eq!(b.num_gpus, 4);
    assert_eq!(b.work_queue, 16472 + 64 * 64 * 4);
    assert_eq!(b.output_slots, 64 * 4 * 128);
    assert_eq!(b.moe_act_uc_handoff, 64 * 128);
    assert_eq!(b.activation_staging, 64 * 64);
    assert_eq!(b.activation_staging_vram, 64 * 64);
    assert_eq!(b.layer_config_ptrs, 5);
    assert_eq!(b.per_token_expert_ids, 2048);
    assert_eq!(b.shared_expert_gate_scratch, 2048);
    assert_eq!(b.gpu0_zero_buffer, 128);
    assert_eq!(b.scratch.scratch_gate, 96);
    assert_eq!(b.scratch.scratch_up, 96);
    assert_eq!(b.scratch.local_output, 128);
    // One scratch buffer takes gate output and down output.
    assert_eq!(MoeP2pContext::buffers(3, 128, 200, 96, 5).scratch.scratch_gate, 200);
}

fn placed() -> PlacedExperts {
    let (dist, _) = distribute_moe_weights_from_ref(&loaded(5), 3, 16, 0).unwrap();
    PlacedExperts {
        dist,
        bases: vec![
            ExpertBases { gate_up: 1000, down: 5000 },
            ExpertBases { gate_up: 10_000, down: 50_000 },
            ExpertBases { gate_up: 100_000, down: 500_000 },
        ],
    }
}

#[test]
fn a_layer_table_lists_local_experts() {
    let c = layer_config(&placed(), 1, 16, 8);
    assert_eq!(c.my_gpu_id, 1);
    assert_eq!(c.num_experts_local, 2);
    assert_eq!(c.gate_up_row_stride, 32);
    assert_eq!(c.hidden_size, 16);
    assert_eq!(c.expert_intermediate_size, 8);
    assert_eq!(c.weight_format, 0);
    assert_eq!(c.entries.len(), 512);
    let at = |g: u32, a: u64, b: u64| MoeExpertEntry {
        global_expert_id: g,
        gate_up_ptr: a,
        down_ptr: b,
    };
    assert_eq!(c.entries[0], at(0, 0, 0));
    assert_eq!(c.entries[1], at(1, 10_000, 50_000));
    assert_eq!(c.entries[4], at(4, 10_512, 50_256));
    assert_eq!(c.entries[5], at(0, 0, 0));
    // On GPU 0 a slot is the expert's own number.
    let c = layer_config(&placed(), 0, 16, 8);
    assert_eq!(c.entries[3], at(3, 1000 + 3 * 512, 5000 + 3 * 256));
}

#[test]
fn only_layers_with_experts_get_a_table() {
    let r = build_layer_configs(2, 3, &vec![None, Some(placed())], 16, 8);
    assert_eq!(r.len(), 3);
    assert!(r[0].is_none());
    assert_eq!(r[1].as_ref().unwrap().num_experts_local, 1);
    assert!(r[2].is_none());
}

fn memory(gpu: usize, tables: Vec<u64>) -> GpuMemory {
    GpuMemory {
        layer_config_ptrs: gpu * 100,
        tables,
        local_activation: gpu * 100 + 1,
        local_output: gpu * 100 + 2,
        scratch_gate: gpu * 100 + 3,
        scratch_up: gpu * 100 + 4,
        scratch_act: gpu * 100 + 5,
    }
}

#[test]
fn expert_gpus_start_with_their_tables() {
    let placed = || {
        let (dist, _) = distribute_moe_weights_from_ref(&loaded(4), 2, 64, 0).unwrap();
        let bases = vec![
            ExpertBases { gate_up: 1000, down: 2000 },
            ExpertBases { gate_up: 5000, down: 6000 },
        ];
        Some(PlacedExperts { dist, bases })
    };
    let layers = vec![placed(), None, placed()];
    let start = MoeP2pContext::init(
        DeviceId(0),
        &[DeviceId(1)],
        64,
        64,
        8,
        4,
        &layers,
        &vec![memory(0, vec![11, 12]), memory(1, vec![21, 22])],
        vec![70, 71],
    );
    let ctx = &start.context;
    assert_eq!(ctx.num_gpus, 2);
    assert_eq!(ctx.gpu0.device, DeviceId(0));
    assert_eq!(ctx.workers[0].device, DeviceId(1));
    assert_eq!(ctx.gpu0.layer_config_ptrs_host, vec![11, 0, 12, 0]);
    assert_eq!(ctx.workers[0].layer_config_ptrs_host, vec![21, 0, 22, 0]);
    assert_eq!(ctx.decode_params.len(), 4);
    assert!(ctx.decode_params.iter().all(|p| p.is_none()));
    assert_eq!(start.tables.len(), 2);
    for (gpu, tables) in start.tables.iter().enumerate() {
        let present: Vec<bool> = tables.iter().map(|t| t.is_some()).collect();
        assert_eq!(present, vec![true, false, true, false]);
        assert_eq!(tables[0].as_ref().unwrap().my_gpu_id, gpu as u32);
    }
    assert_eq!(start.zeroed.len(), 12);
    assert_eq!(start.zeroed[0].buffer, P2pBuffer::ZeroBuffer);
    assert!(start
        .zeroed
        .contains(&ZeroFill { buffer: P2pBuffer::OutputSlots, len: 64 * 2 * 64 }));
}

#[test]
fn a_remote_pass_uses_its_own_scratch() {
    let ctx = MoeP2pContext::init(
        DeviceId(0),
        &[DeviceId(1), DeviceId(2)],
        16,
        64,
        96,
        2,
        &vec![None, None],
        &vec![memory(0, vec![]), memory(1, vec![]), memory(2, vec![])],
        vec![70, 71, 72],
    )
    .context;
    assert_eq!(ctx.num_gpus, 3);
    assert_eq!(ctx.activation_staging_dev_ptr_for(1), 72);
    assert_eq!(ctx.local_output_ptr_for(0), 102);
    let call = FfnCall {
        layer: 6,
        activation: 1,
        output: 2,
        expert_ids: 3,
        expert_weights: 4,
        k: 8,
        expert_intermediate_size: 96,
        hidden_size: 16,
        gate_up_in_dim: 64,
        has_gate_proj: true,
        relu_sq: false,
        wait_ptr: 9,
        wait_seq: 11,
    };
    let r = ctx.build_ffn_remote_inst(1, &call);
    assert_eq!(r.config_array, 200);
    assert_eq!(r.layer, 6);
    assert_eq!(r.scratch_act, 205);
    assert_eq!(r.k, 8);
    assert_eq!(r.wait_seq, 11);
    let r = ctx.build_ffn_remote_inst_gpu0(&call);
    assert_eq!(r.local_output, 2);
    assert_eq!(r.scratch_gate, 3);
}

#[test]
fn experts_read_the_latent_width() {
    let config = |latent: Option<usize>| ModelConfig {
        num_layers: 1,
        hidden_size: 16,
        intermediate_size: 8,
        vocab_size: 10,
        max_seq_len: 32,
        num_q_heads: 2,
        num_kv_heads: 1,
        head_dim: 4,
        rope_dim: 4,
        mrope_section: (0, 0, 0),
        linear_num_heads: 1,
        linear_num_value_heads: 1,
        linear_key_head_dim: 4,
        linear_value_head_dim: 4,
        linear_conv_kernel_dim: 2,
        has_output_gate: false,
        has_qk_norm: false,
        use_rope: true,
        rms_norm_one_plus_w: false,
        tie_word_embeddings: false,
        moe_latent_size: latent,
        weight_quant: WeightQuantMode::Bf16,
        recurrent_kind: RecurrentLayerKind::Gdn,
        rms_norm_eps: 0,
        layers: vec![LayerConfig {
            layer_type: LayerType::MoeFfn,
            ffn_type: FfnType::MoE {
                num_experts: 4,
                num_active: 2,
                expert_intermediate_size: 8,
                num_shared: 0,
                shared_intermediate_size: 0,
                gate_type: GateType::Softmax,
            },
        }],
    };
    assert_eq!(gate_up_in_dim(Some(24), &config(Some(12))), 24);
    assert_eq!(gate_up_in_dim(None, &config(Some(12))), 12);
    assert_eq!(gate_up_in_dim(None, &config(None)), 16);
}
