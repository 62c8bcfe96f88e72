use braidinfer_runtime::config::{
    FfnType, GateType, LayerConfig, LayerType, ModelConfig, RecurrentLayerKind, WeightQuantMode,
};
use braidinfer_runtime::model::attention_forward::attention_forward;
use braidinfer_runtime::model::forward::gdn_forward;
use braidinfer_runtime::model::head_parallel::dispatch_head_parallel_attention;
use braidinfer_runtime::model::moe_forward::{gate_mode, moe_ffn_forward, moe_route, MoeLayer};
use braidinfer_runtime::model::moe_prefill::{
    moe_ffn_forward_prefill_batched, moe_prefill_route, LocalExperts,
};
use braidinfer_runtime::model::moe_prefill_single::{
    moe_ffn_forward_prefill_single_gpu_batched, moe_single_route, token_copies, uses_batched_gemm,
};
use braidinfer_runtime::model::trace::{decode_step_trace, Checkpoint, TraceStep};
use braidinfer_runtime::ops::{
    all_of, at, blocks_for, Buf, Inst, Loc, Op, Rotary, Signal, SignalSlot, WLoc, Weight,
    WeightFormat, ONE_F32,
};

fn config() -> ModelConfig {
    let layer = |layer_type: LayerType, ffn_type: FfnType| LayerConfig { layer_type, ffn_type };
    ModelConfig {
        num_layers: 3,
        hidden_size: 512,
        intermediate_size: 40,
        vocab_size: 77,
        max_seq_len: 256,
        num_q_heads: 4,
        num_kv_heads: 2,
        head_dim: 8,
        rope_dim: 6,
        mrope_section: (1, 2, 3),
        linear_num_heads: 2,
        linear_num_value_heads: 4,
        linear_key_head_dim: 3,
        linear_value_head_dim: 5,
        linear_conv_kernel_dim: 4,
        has_output_gate: false,
        has_qk_norm: false,
        use_rope: true,
        rms_norm_one_plus_w: true,
        tie_word_embeddings: false,
        moe_latent_size: None,
        weight_quant: WeightQuantMode::Bf16,
        recurrent_kind: RecurrentLayerKind::Gdn,
        rms_norm_eps: 9,
        layers: vec![
            layer(LayerType::Gdn, FfnType::Dense),
            layer(LayerType::Attention, FfnType::Dense),
            layer(LayerType::Attention, FfnType::Absent),
        ],
    }
}

fn moe() -> MoeLayer {
    MoeLayer {
        layer: 6,
        mixer: LayerType::Attention,
        hidden_size: 512,
        num_experts: 8,
        expert_intermediate_size: 16,
        gate_up_in_dim: 512,
        has_gate_proj: true,
        has_fc1: false,
        has_fc2: false,
        has_shared: false,
        has_shared_gate: false,
        has_score_bias: false,
        gate_up_format: WeightFormat::Bf16,
        down_format: WeightFormat::Bf16,
        num_active: 2,
        gate_type: GateType::Softmax,
        shared_intermediate_size: 0,
        config_intermediate_size: 24,
        eps: 9,
        one_plus_w: false,
    }
}

fn in_buf(buf: Buf, offset: usize) -> Loc {
    Loc { buf, offset }
}

#[test]
fn attention_writes_kv_before_it_attends() {
    let ops = attention_forward(&config(), 2, 1, 70, 7, 8);
    assert_eq!(ops.len(), 4 + 1 + 4 + 2 + 4);
    assert_eq!(
        ops[0],
        Op::RmsNorm {
            out: at(Buf::Normed),
            input: at(Buf::Hidden),
            weight: Weight::InputNorm { layer: 2 },
            dim: 512,
            eps: 9,
            one_plus_w: true,
        }
    );
    assert_eq!(
        ops[2],
        Op::Linear {
            out: at(Buf::KAttn),
            matrix: all_of(Weight::K { layer: 2 }),
            input: at(Buf::Normed),
            out_dim: 16,
            in_dim: 512,
        }
    );
    // A plane is 64 tokens of 16 floats; the second layer's planes follow the first's.
    let plane = 64 * 16 * 4;
    let row = (64 * 8 + 6 * 8) * 4;
    assert_eq!(
        ops[8],
        Op::Copy {
            dst: in_buf(Buf::KvChunk { gpu: 0 }, 3 * plane + row),
            src: in_buf(Buf::VAttn, 8),
            len: 8,
        }
    );
    assert_eq!(ops[9], Op::SetPosition { position: 70 });
    match ops[11] {
        Op::PagedAttention {
            seq_len, k_offset, v_offset, k_norm, local_q_heads, chunk_tokens, rope_dim, rotary, ..
        } => {
            assert_eq!(seq_len, 71);
            assert_eq!((chunk_tokens, rope_dim, rotary), (64, config().rope_dim, None));
            assert_eq!((k_offset, v_offset), (2 * plane, 3 * plane));
            assert_eq!(k_norm, None);
            assert_eq!(local_q_heads, 4);
        }
        other => panic!("not attention: {:?}", other),
    }
    assert_eq!(
        ops[14],
        Op::ResidualAdd {
            out: at(Buf::Hidden),
            a: at(Buf::OutProj),
            b: at(Buf::Residual),
            len: 512,
        }
    );
}

#[test]
fn a_gated_query_is_split_head_by_head() {
    let mut c = config();
    c.has_output_gate = true;
    c.use_rope = false;
    let ops = attention_forward(&c, 1, 0, 0, 1, 8);
    assert_eq!(
        ops[7],
        Op::Copy { dst: in_buf(Buf::GateAttn, 8), src: in_buf(Buf::QGateAttn, 24), len: 8 }
    );
    assert_eq!(
        ops[ops.len() - 4],
        Op::OutputGate {
            out: at(Buf::GatedOut),
            attn: at(Buf::AttnOut),
            gate: at(Buf::GateAttn),
            len: 32,
        }
    );
    assert!(!ops.iter().any(|o| matches!(o, Op::Rope { .. })));
}

#[test]
fn query_norms_are_per_head_or_whole() {
    let mut c = config();
    c.has_qk_norm = true;
    let ops = attention_forward(&c, 1, 0, 0, 1, 8);
    assert_eq!(
        ops[9],
        Op::QkNorm { layer: 1, q_heads: 4, kv_heads: 2, head_dim: 8, eps: 9 }
    );
    let ops = attention_forward(&c, 1, 0, 0, 1, 32);
    match ops[9] {
        Op::RmsNorm { weight, dim, .. } => {
            assert_eq!((weight, dim), (Weight::QNorm { layer: 1 }, 32))
        }
        other => panic!("not a norm: {:?}", other),
    }
    assert_eq!(
        ops[12],
        Op::Copy { dst: at(Buf::KAttn), src: at(Buf::Normed), len: 16 }
    );
}

#[test]
fn recurrent_layers_convolve_three_parts() {
    let ops = gdn_forward(&config(), 0, 5);
    assert_eq!(ops.len(), 14);
    match ops[1] {
        Op::Linear { out_dim, .. } => assert_eq!(out_dim, 32),
        other => panic!("not a projection: {:?}", other),
    }
    assert_eq!(
        ops[7],
        Op::CausalConv1d {
            state: in_buf(Buf::ConvState { gdn: 5 }, 36),
            input: in_buf(Buf::Qkv, 12),
            weight: Weight::GdnConvV { layer: 0 },
            out: at(Buf::VGdn),
            channels: 20,
            kernel: 4,
        }
    );
    assert_eq!(
        ops[9],
        Op::GdnRecurrent { gdn: 5, heads: 4, key_dim: 3, value_dim: 5, group: 2, states: 2 }
    );
}

#[test]
fn a_traced_step_visits_every_layer() {
    let steps = decode_step_trace(&config(), &[true, false, true], 42, 3, true);
    assert_eq!(steps[0], TraceStep::AppendToken);
    assert_eq!(steps[1], TraceStep::Op(Op::SetPosition { position: 3 }));
    assert_eq!(
        steps[2],
        TraceStep::Op(Op::Embedding { out: at(Buf::Hidden), token: 42, dim: 512 })
    );
    assert_eq!(
        steps[3..8],
        [
            TraceStep::Record(Checkpoint::Embed),
            TraceStep::Gdn { layer: 0, gdn: 0 },
            TraceStep::Record(Checkpoint::PostMixer { layer: 0 }),
            TraceStep::FusedFfn { layer: 0 },
            TraceStep::Record(Checkpoint::PostFfn { layer: 0 }),
        ]
    );
    assert_eq!(steps[8], TraceStep::Attention { layer: 1, attn: 0 });
    // Seven kernels of the dense part.
    assert_eq!(steps[17], TraceStep::Record(Checkpoint::PostFfn { layer: 1 }));
    assert_eq!(steps[18], TraceStep::Attention { layer: 2, attn: 1 });
    assert_eq!(steps[20], TraceStep::Record(Checkpoint::PostFfn { layer: 2 }));
    assert_eq!(steps[steps.len() - 2], TraceStep::Record(Checkpoint::TopLogits));
    assert_eq!(steps[steps.len() - 1], TraceStep::StepDone { position: 3 });
    let quiet = decode_step_trace(&config(), &[true, false, true], 42, 3, false);
    assert!(!quiet.iter().any(|s| matches!(s, TraceStep::Record(_))));
    let mut c = config();
    c.tie_word_embeddings = true;
    let tied = decode_step_trace(&c, &[true, false, true], 42, 3, false);
    match tied[tied.len() - 3] {
        TraceStep::Op(Op::Linear { matrix, out_dim, .. }) => {
            assert_eq!((matrix, out_dim), (all_of(Weight::Embed), 77))
        }
        ref other => panic!("not the logits: {:?}", other),
    }
}

#[test]
fn heads_are_shared_between_gpus() {
    let plan = dispatch_head_parallel_attention(&config(), 2, 1, 70, &[7, 7], true);
    assert_eq!(plan.batches.len(), 2);
    // GPU 1 waits for the activations that GPU 0 normalised.
    assert_eq!(
        plan.batches[1][0].wait,
        Some(Signal { slot: SignalSlot::NormedReady { attn: 1 }, value: 71 })
    );
    let last = plan.batches[1][plan.batches[1].len() - 1];
    assert_eq!(last.grid, Some(2));
    match last.op {
        Op::PagedAttention {
            gpu, q_head_start, local_q_heads, out, chunk_tokens, rope_dim, rotary, ..
        } => {
            let (section0, section1, _) = config().mrope_section;
            let eps = config().rms_norm_eps;
            assert_eq!((chunk_tokens, rope_dim), (64, config().rope_dim));
            assert_eq!(rotary, Some(Rotary { eps, section0, section1 }));
            assert_eq!((gpu, q_head_start, local_q_heads), (1, 2, 2));
            assert_eq!(out, at(Buf::WorkerAttnOut { gpu: 1 }));
        }
        other => panic!("not attention: {:?}", other),
    }
    assert_eq!(plan.gather.len(), 1);
    assert_eq!(
        plan.gather[0].op,
        Op::Copy {
            dst: in_buf(Buf::AttnOut, 16),
            src: at(Buf::WorkerAttnOut { gpu: 1 }),
            len: 16,
        }
    );
    // Where GPU 0 projected all heads, the other fetches its queries.
    let plan = dispatch_head_parallel_attention(&config(), 2, 1, 70, &[7, 7], false);
    assert_eq!(
        plan.batches[1][0].op,
        Op::Copy {
            dst: at(Buf::WorkerQ { gpu: 1 }),
            src: in_buf(Buf::QAttn, 16),
            len: 16,
        }
    );
}

#[test]
fn gates_travel_with_their_heads() {
    let mut c = config();
    c.has_output_gate = true;
    let plan = dispatch_head_parallel_attention(&c, 2, 0, 0, &[1, 1], true);
    assert_eq!(plan.gather.len(), 2);
    assert_eq!(
        plan.gather[1].op,
        Op::Copy {
            dst: in_buf(Buf::GateAttn, 16),
            src: at(Buf::WorkerGate { gpu: 1 }),
            len: 16,
        }
    );
}

#[test]
fn routers_have_three_modes() {
    assert_eq!(gate_mode(GateType::Softmax), (0, 1.0f32.to_bits()));
    assert_eq!(gate_mode(GateType::NormTopK { routed_scaling_factor: 7 }), (1, 7));
    assert_eq!(gate_mode(GateType::Sigmoid { routed_scaling_factor: 8 }), (2, 8));
    assert_eq!(ONE_F32, 1.0f32.to_bits());
}

#[test]
fn a_token_is_routed_and_its_experts_summed() {
    let m = moe();
    let route = moe_route(&m);
    assert_eq!(route.len(), 5);
    match route[0] {
        Op::RmsNorm { weight, .. } => assert_eq!(weight, Weight::PostNorm { layer: 6 }),
        other => panic!("not a norm: {:?}", other),
    }
    assert_eq!(route[4], Op::Sync);
    let standalone = MoeLayer { mixer: LayerType::MoeFfn, ..m };
    match moe_route(&standalone)[0] {
        Op::RmsNorm { weight, .. } => assert_eq!(weight, Weight::InputNorm { layer: 6 }),
        other => panic!("not a norm: {:?}", other),
    }

    let ops = moe_ffn_forward(&m, &[3, 0], &[10, 20]);
    assert_eq!(ops[0], Op::Zero { dst: at(Buf::FfnDown), len: 512 });
    // Expert 3: 32 rows of 1024 bytes each, gate first.
    assert_eq!(
        ops[2],
        Op::Linear {
            out: at(Buf::MoeExpertUp),
            matrix: WLoc {
                weight: Weight::ExpertGateUp { layer: 6 },
                byte_offset: (3 * 32 + 16) * 1024,
            },
            input: at(Buf::Normed),
            out_dim: 16,
            in_dim: 512,
        }
    );
    assert_eq!(
        ops[5],
        Op::ScaleAdd {
            dst: at(Buf::FfnDown),
            src: at(Buf::MoeExpertOut),
            scale: 10,
            len: 512,
        }
    );
    assert_eq!(ops.iter().filter(|o| matches!(o, Op::ScaleAdd { .. })).count(), 2);
}

#[test]
fn latent_experts_sum_before_the_output_projection() {
    let m = MoeLayer {
        gate_up_in_dim: 128,
        has_fc1: true,
        has_fc2: true,
        has_gate_proj: false,
        has_shared: true,
        ..moe()
    };
    let ops = moe_ffn_forward(&m, &[1, 2], &[10, 20]);
    match ops[0] {
        Op::Linear { out, matrix, .. } => {
            assert_eq!(out, at(Buf::MoeLatent));
            assert_eq!(matrix, all_of(Weight::Fc1Latent { layer: 6 }));
        }
        other => panic!("not a projection: {:?}", other),
    }
    assert_eq!(ops[1], Op::Zero { dst: at(Buf::MoeExpertOut), len: 128 });
    assert!(ops.iter().any(|o| matches!(o, Op::ReluSq { len: 16, .. })));
    // The shared expert has the width that the description gives.
    assert!(ops.iter().any(|o| matches!(o, Op::ReluSq { len: 24, .. })));
    assert!(ops.contains(&Op::Linear {
        out: at(Buf::FfnDown),
        matrix: all_of(Weight::Fc2Latent { layer: 6 }),
        input: at(Buf::MoeExpertOut),
        out_dim: 512,
        in_dim: 128,
    }));
}

#[test]
fn a_batch_is_routed_and_staged() {
    let insts = moe_prefill_route(&moe(), 2);
    assert_eq!(insts.len(), 2 * 3 + 2);
    match insts[5].op {
        Op::MoeGate { ids, k, .. } => {
            assert_eq!(ids, in_buf(Buf::PerTokenExpertIds, 32));
            assert_eq!(k, 2);
        }
        other => panic!("not a router: {:?}", other),
    }
    let stage = insts[6];
    assert_eq!(stage.signal, Some(Signal { slot: SignalSlot::PrefillDrain, value: 1 }));
    assert_eq!(
        stage.op,
        Op::Copy {
            dst: at(Buf::ActivationStaging),
            src: at(Buf::PrefillMoeNormed),
            len: 1024,
        }
    );
    assert_eq!(insts[7].op, Op::Nop);
}

#[test]
fn a_batch_runs_local_experts_and_sums_all_gpus() {
    let m = moe();
    let local = LocalExperts {
        slot_map: vec![Some(0), None, Some(1), None, Some(2), None, Some(3), None],
        gate_up_expert_stride: 32 * 1024,
        down_expert_stride: 512 * 32,
        gate_up_row_stride: 1024,
    };
    let mut ids = vec![0i32; 64];
    let mut weights = vec![0u32; 64];
    for (at, id, w) in [(0, 4, 10), (1, 1, 20), (32, 3, 30), (33, 5, 40)] {
        ids[at] = id;
        weights[at] = w;
    }
    let plan = moe_ffn_forward_prefill_batched(&m, &local, &ids, &weights, 2, 2);
    assert_eq!(plan.rounds.len(), 2);
    assert_eq!(plan.rounds[0].expert_ids, vec![4, 1]);
    assert_eq!(plan.rounds[1].expert_weights, vec![30, 40]);
    assert_eq!(plan.rounds[1].calls.len(), 1);
    assert_eq!(plan.rounds[1].calls[0].activation_offset, 512);
    assert_eq!(plan.rounds[1].readbacks[0].slot_offset, 3 * 512);
    assert_eq!(plan.rounds[1].readbacks[0].bytes, 2048);
    // Token 0 has one expert here, token 1 none.
    assert_eq!(plan.local[0].len(), 2 + 5);
    assert_eq!(plan.local[1].len(), 2);
    match plan.local[0][2].op {
        Op::Linear { matrix, .. } => assert_eq!(
            matrix,
            WLoc {
                weight: Weight::LocalExpertGateUp { layer: 6 },
                byte_offset: 2 * 32 * 1024 + 16 * 1024,
            }
        ),
        other => panic!("not a projection: {:?}", other),
    }
    assert_eq!(
        plan.local[1][1].op,
        Op::Copy {
            dst: in_buf(Buf::OutputSlots, 1024),
            src: at(Buf::FfnDown),
            len: 512,
        }
    );
    // Three copies, two GPUs, residual and write-back.
    assert_eq!(plan.combine[1].len(), 3 + 4 + 2);
    assert_eq!(
        plan.combine[1][5].op,
        Op::Copy {
            dst: at(Buf::MoeExpertOut),
            src: in_buf(Buf::OutputSlots, 3 * 512),
            len: 512,
        }
    );
}

#[test]
fn one_gpu_loads_each_expert_once() {
    let m = MoeLayer { gate_up_format: WeightFormat::PcG32Q4, ..moe() };
    assert!(uses_batched_gemm(&m, true));
    assert!(!uses_batched_gemm(&m, false));
    assert!(!uses_batched_gemm(&MoeLayer { has_fc2: true, ..m }, true));
    assert!(!uses_batched_gemm(&moe(), true));

    let route = moe_single_route(&m, 3);
    assert_eq!(route.len(), 3 * 6 + 1);
    assert_eq!(route[18], Op::Sync);

    let plan = moe_ffn_forward_prefill_single_gpu_batched(
        &m,
        &[5, 1, 1, 2, 5, 1],
        &[10, 11, 12, 13, 14, 15],
        3,
    );
    assert_eq!(plan.clear, Op::Zero { dst: at(Buf::PrefillMoeFfnOut), len: 3 * 512 });
    let chosen: Vec<usize> = plan.experts.iter().map(|e| e.expert).collect();
    assert_eq!(chosen, vec![1, 2, 5]);
    assert_eq!(plan.experts[0].token_indices, vec![0, 1, 2]);
    assert_eq!(plan.experts[0].token_weights, vec![11, 12, 15]);
    assert_eq!(plan.experts[2].token_indices, vec![0, 2]);
    let total: usize = plan.experts.iter().map(|e| e.token_indices.len()).sum();
    assert_eq!(total, 6);
    assert_eq!(
        plan.experts[0].ops[0],
        Op::Gather {
            out: at(Buf::PrefillMoeExpertInput),
            input: at(Buf::PrefillMoeNormed),
            rows: 3,
            dim: 512,
        }
    );
    assert_eq!(plan.finish[plan.finish.len() - 1], Op::Sync);
    let (inward, back) = token_copies(&m, 2);
    assert_eq!(
        inward,
        Op::Copy { dst: at(Buf::Hidden), src: in_buf(Buf::PrefillHidden, 1024), len: 512 }
    );
    assert_eq!(
        back,
        Op::Copy { dst: in_buf(Buf::PrefillHidden, 1024), src: at(Buf::Hidden), len: 512 }
    );
}

#[test]
fn instructions_carry_their_grid() {
    assert_eq!(blocks_for(0), 0);
    assert_eq!(blocks_for(256), 1);
    assert_eq!(blocks_for(257), 2);
    let i: Inst = moe_prefill_route(&moe(), 1)[0];
    assert_eq!(i.grid, Some(1));
    assert_eq!(i.wait, None);
}
