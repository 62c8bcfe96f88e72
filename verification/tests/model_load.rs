use braidinfer_runtime::config::{
    FfnType, GateType, LayerConfig, LayerType, ModelConfig, RecurrentLayerKind, WeightQuantMode,
};
use braidinfer_runtime::error::ModelError;
use braidinfer_runtime::model::instance::Model;
use braidinfer_runtime::model::load::buffers::{
    activation_sizes, largest_measure, state_counts, ExpertMeasure,
};
use braidinfer_runtime::model::load::distributed::{
    init_split_attn_weights, AttnFormats, LayerDistribution, LayerExperts,
};
use braidinfer_runtime::model::load::layer::{
    resolve, LayerName, TensorKind, TensorLoad, TensorSource, Want,
};
use braidinfer_runtime::model::load::names::{
    discover_prefix, embed_name, has_qk_norm, lm_head_name, norm_name, tensor_names,
};
use braidinfer_runtime::model::load::paths::{
    auto_bqnt_path, bqnt_candidate, resolve_bqnt_path_with_env, save_bqnt_path, sibling_archive,
};
use braidinfer_runtime::model::load::plan::{LoadSettings, NamedLoad};
use braidinfer_runtime::model::load::settings::{
    check_kv_quant, config_source, effective_max_seq_len, parse_quant_layers, quantizes_layer,
    use_weight_arena, weight_quant_mode, ConfigSource, LayerRange,
};
use braidinfer_runtime::model::load::wants::{conv_parts, plan_wants, ConvPart};
use braidinfer_runtime::moe_weights::distribute::LoadedExperts;
use braidinfer_runtime::moe_weights::layer::{
    load_latent_proj, load_moe_weights, load_moe_weights_cached, load_moe_weights_lite,
    load_moe_weights_lite_cached, plan_bias,
};
use braidinfer_runtime::moe_weights::load::{
    concat_per_expert_bqnt, expert_entry_name, BiasLoad, ExpertSource, LatentLoad,
};
use braidinfer_runtime::moe_weights::names::{ExpertPart, ExpertScheme, MoeName};
use braidinfer_runtime::multi_gpu::AttnShare;
use braidinfer_runtime::ops::WeightFormat;
use braidinfer_runtime::tensors::{
    PackedEntry, PackedIndex, PackedInfo, RawEntry, RawIndex, Sources,
};
use std::path::Path;

/// Asks the disk about the candidate, as a caller does.
fn resolve_on_disk(env: Option<&str>, model_dir: &str) -> Option<String> {
    let exists = match bqnt_candidate(env, model_dir) {
        Some(p) => Path::new(&p).exists(),
        None => false,
    };
    resolve_bqnt_path_with_env(env, model_dir, exists)
}

#[test]
fn resolve_none_when_no_file() {
    let result = resolve_on_disk(None, "/nonexistent/no_bqnt_here");
    assert_eq!(result, None);
}

#[test]
fn resolve_explicit_env_wins() {
    let explicit = "/tmp/braidinfer_abuf_explicit.q4.bqnt";
    let result = resolve_bqnt_path_with_env(Some(explicit), "/nonexistent/model_dir", true);
    assert_eq!(result.as_deref(), Some(explicit));
}

#[test]
fn resolve_auto_derive_when_no_env() {
    let result = resolve_bqnt_path_with_env(None, "/tmp/mymodel_abuf_test", true);
    assert_eq!(result.as_deref(), Some("/tmp/mymodel_abuf_test.q4.bqnt"));
}

#[test]
fn the_archive_lies_beside_the_model_directory() {
    assert_eq!(auto_bqnt_path("/models/tiny").as_deref(), Some("/models/tiny.q4.bqnt"));
    assert_eq!(auto_bqnt_path("/models/tiny/").as_deref(), Some("/models/tiny.q4.bqnt"));
    assert_eq!(auto_bqnt_path("tiny").as_deref(), Some("tiny.q4.bqnt"));
    assert_eq!(auto_bqnt_path("/tiny").as_deref(), Some("/tiny.q4.bqnt"));
    assert_eq!(auto_bqnt_path("/"), None);
    assert_eq!(auto_bqnt_path("/models/.."), None);
}

#[test]
fn directory_and_file_of_the_archive() {
    let found = sibling_archive("dir", Some("m".to_string()), Some("p".to_string()));
    assert_eq!(found, Some(("p".to_string(), "m.q4.bqnt".to_string())));
    let found = sibling_archive("dir", Some("m".to_string()), None);
    assert_eq!(found, Some(("dir".to_string(), "m.q4.bqnt".to_string())));
    assert_eq!(sibling_archive("dir", None, Some("p".to_string())), None);
}

#[test]
fn converted_weights_are_saved_where_they_are_looked_for() {
    let dir = "/models/tiny";
    assert_eq!(
        save_bqnt_path(false, false, WeightQuantMode::Rnf4, dir),
        bqnt_candidate(None, dir)
    );
    assert_eq!(save_bqnt_path(true, false, WeightQuantMode::Rnf4, dir), None);
    assert_eq!(save_bqnt_path(false, true, WeightQuantMode::Rnf4, dir), None);
    assert_eq!(save_bqnt_path(false, false, WeightQuantMode::Bf16, dir), None);
}

fn strings(names: &[&str]) -> Vec<String> {
    names.iter().map(|n| n.to_string()).collect()
}

#[test]
fn the_prefix_of_the_model_proper_is_preferred() {
    let names = strings(&["mtp.layers.0.x", "other.layers.0.x", "model.layers.0.x"]);
    assert_eq!(discover_prefix(&names).unwrap(), "model.");
    let names = strings(&["mtp.layers.0.x", "other.layers.0.x"]);
    assert_eq!(discover_prefix(&names).unwrap(), "other.");
    let names = strings(&["mtp.layers.0.x"]);
    assert_eq!(discover_prefix(&names).unwrap(), "mtp.");
    let names = strings(&["layers.0.x"]);
    assert_eq!(discover_prefix(&names).unwrap(), "");
}

#[test]
fn no_prefix_without_a_first_layer() {
    match discover_prefix(&strings(&["model.layers.1.x", "embed"])) {
        Err(ModelError::MissingWeight(t)) => assert_eq!(t, "no layers.0. tensor found"),
        _ => panic!("there is no layer 0"),
    }
}

#[test]
fn archive_names_come_first_unless_there_are_none() {
    let raw = strings(&["r"]);
    assert_eq!(tensor_names(Some(strings(&["p"])), raw.clone()), strings(&["p"]));
    assert_eq!(tensor_names(Some(Vec::new()), raw.clone()), raw);
    assert_eq!(tensor_names(None, raw.clone()), raw);
}

#[test]
fn embedding_norm_and_head_are_found_by_name() {
    let names = strings(&[
        "visual.embeddings.weight",
        "model.embed_tokens.weight",
        "model.layers.0.input_layernorm.weight",
        "visual.norm.weight",
        "model.norm.weight",
        "lm_head.weight",
    ]);
    assert_eq!(embed_name(&names, "model.").unwrap(), "model.embed_tokens.weight");
    assert_eq!(embed_name(&names, "none.").unwrap(), "visual.embeddings.weight");
    assert_eq!(norm_name(&names, "model.").unwrap(), "model.norm.weight");
    assert_eq!(norm_name(&names, "none.").unwrap(), "model.norm.weight");
    assert_eq!(lm_head_name(&names, false).unwrap().as_deref(), Some("lm_head.weight"));
    assert_eq!(lm_head_name(&names, true).unwrap(), None);
    assert!(!has_qk_norm(&names));
    assert!(has_qk_norm(&strings(&["model.layers.0.self_attn.q_norm.weight"])));
    let gpt = strings(&["h.wte.weight", "h.wte.weight.bias", "h.ln_f.weight"]);
    assert_eq!(embed_name(&gpt, "h.").unwrap(), "h.wte.weight");
    assert_eq!(norm_name(&gpt, "h.").unwrap(), "h.ln_f.weight");
}

#[test]
fn missing_embedding_norm_and_head_are_reported() {
    let none = strings(&["model.layers.0.norm.weight"]);
    match embed_name(&none, "model.") {
        Err(ModelError::MissingWeight(t)) => assert_eq!(t, "embedding tensor not found"),
        _ => panic!("there is no embedding"),
    }
    match norm_name(&none, "model.") {
        Err(ModelError::MissingWeight(t)) => assert_eq!(t, "final norm tensor not found"),
        _ => panic!("there is no final norm"),
    }
    match lm_head_name(&none, false) {
        Err(ModelError::MissingWeight(t)) => assert_eq!(t, "lm_head.weight not found"),
        _ => panic!("there is no head"),
    }
}

#[test]
fn settings_of_a_load() {
    assert!(check_kv_quant(true, false).is_ok());
    assert!(check_kv_quant(false, true).is_ok());
    match check_kv_quant(true, true) {
        Err(ModelError::InvalidConfig(t)) => assert_eq!(
            t,
            "KV_QUANT=1 is not supported with MULTI_GPU (multi-GPU paged KV dispatch not yet implemented). Either unset KV_QUANT, or unset MULTI_GPU."
        ),
        _ => panic!("both were set"),
    }
    assert_eq!(config_source(true, true), ConfigSource::Embedded);
    assert_eq!(config_source(false, true), ConfigSource::ConfigJson);
    assert_eq!(config_source(false, false), ConfigSource::BuiltIn);
    assert_eq!(effective_max_seq_len(None, 262144), 8192);
    assert_eq!(effective_max_seq_len(None, 4096), 4096);
    assert_eq!(effective_max_seq_len(Some(100000), 4096), 100000);
    assert_eq!(weight_quant_mode(Some("rnf4")), WeightQuantMode::Rnf4);
    assert_eq!(weight_quant_mode(Some("mixed")), WeightQuantMode::Mixed);
    assert_eq!(weight_quant_mode(Some("q4")), WeightQuantMode::Bf16);
    assert_eq!(weight_quant_mode(None), WeightQuantMode::Bf16);
}

#[test]
fn the_weight_arena_needs_two_gigabytes_of_headroom() {
    let gib = 1u64 << 30;
    assert!(use_weight_arena(false, false, Some(gib), 3 * gib));
    assert!(!use_weight_arena(false, false, Some(gib), 3 * gib - 1));
    assert!(use_weight_arena(false, false, Some(gib), 0));
    assert!(!use_weight_arena(true, false, Some(gib), 9 * gib));
    assert!(!use_weight_arena(false, true, Some(gib), 9 * gib));
    assert!(!use_weight_arena(false, false, None, 9 * gib));
}

#[test]
fn layer_ranges_are_read() {
    let ranges = parse_quant_layers(" 0-2, 7 ,x,5-,9-8");
    assert_eq!(
        ranges,
        vec![
            LayerRange { first: 0, last: 2 },
            LayerRange { first: 7, last: 7 },
            LayerRange { first: 9, last: 8 },
        ]
    );
    let inside: Vec<usize> = (0..12).filter(|&i| quantizes_layer(Some(&ranges), i)).collect();
    assert_eq!(inside, vec![0, 1, 2, 7]);
    assert!(quantizes_layer(None, 99));
    assert!(parse_quant_layers("").is_empty());
}

// ---- whole plans ----

fn raw(name: &str, shape: &[usize]) -> RawEntry {
    RawEntry { name: name.to_string(), shape: shape.to_vec(), bytes: 2 * shape.iter().product::<usize>() }
}

fn packed(name: &str, out_features: usize, in_features: usize) -> PackedEntry {
    PackedEntry {
        name: name.to_string(),
        info: PackedInfo {
            code: 1,
            format: Some(WeightFormat::Rnf4G128),
            out_features,
            in_features,
            data_offset: 4096,
            data_bytes: out_features * 132,
        },
    }
}

fn tiny_config(layers: Vec<LayerConfig>) -> ModelConfig {
    ModelConfig {
        num_layers: layers.len(),
        hidden_size: 8,
        intermediate_size: 16,
        vocab_size: 32,
        max_seq_len: 100000,
        num_q_heads: 2,
        num_kv_heads: 1,
        head_dim: 4,
        rope_dim: 4,
        mrope_section: (1, 1, 0),
        linear_num_heads: 2,
        linear_num_value_heads: 4,
        linear_key_head_dim: 3,
        linear_value_head_dim: 5,
        linear_conv_kernel_dim: 4,
        has_output_gate: false,
        has_qk_norm: false,
        use_rope: true,
        rms_norm_one_plus_w: false,
        tie_word_embeddings: true,
        moe_latent_size: None,
        weight_quant: WeightQuantMode::Bf16,
        recurrent_kind: RecurrentLayerKind::Gdn,
        rms_norm_eps: 0x358637bd,
        layers,
    }
}

fn attention(ffn_type: FfnType) -> LayerConfig {
    LayerConfig { layer_type: LayerType::Attention, ffn_type }
}

fn attention_tensors(q_rows: usize) -> Vec<RawEntry> {
    vec![
        raw("m.layers.0.input_layernorm.weight", &[8]),
        raw("m.layers.0.self_attn.q_proj.weight", &[q_rows, 8]),
        raw("m.layers.0.self_attn.k_proj.weight", &[4, 8]),
        raw("m.layers.0.self_attn.v_proj.weight", &[4, 8]),
        raw("m.layers.0.self_attn.o_proj.weight", &[8, 8]),
        raw("m.layers.0.mlp.gate_proj.weight", &[16, 8]),
        raw("m.layers.0.mlp.up_proj.weight", &[16, 8]),
        raw("m.layers.0.mlp.down_proj.weight", &[8, 16]),
        raw("m.embed_tokens.weight", &[32, 8]),
        raw("m.norm.weight", &[8]),
    ]
}

fn no_settings() -> LoadSettings {
    LoadSettings {
        kv_quant: false,
        multi_gpu: false,
        weight_quant: None,
        quant_layers: None,
        caching: false,
        data_section: None,
        vram_free: 0,
    }
}

fn raw_only(entries: Vec<RawEntry>) -> Sources {
    Sources { packed: None, raw: RawIndex { entries } }
}

fn names_of(src: &Sources) -> Vec<String> {
    src.raw.entries.iter().map(|e| e.name.clone()).collect()
}

#[test]
fn a_dense_model_is_planned_from_raw_tensors() {
    let src = raw_only(attention_tensors(8));
    let plan = Model::load(
        tiny_config(vec![attention(FfnType::Dense)]),
        &no_settings(),
        &src,
        &names_of(&src),
    )
    .unwrap();
    assert_eq!(plan.prefix, "m.");
    let vector = |name: &str, len: usize| NamedLoad {
        name: name.to_string(),
        len,
        source: TensorSource::Raw,
    };
    assert_eq!(plan.embed, vector("m.embed_tokens.weight", 256));
    assert_eq!(plan.final_norm, vector("m.norm.weight", 8));
    assert_eq!(plan.lm_head, None);
    assert!(!plan.arena);
    assert_eq!(plan.activations.hidden, 8);
    assert_eq!(plan.activations.logits, 32);
    assert_eq!((plan.states.gdn, plan.states.mamba2), (0, 0));
    assert_eq!(plan.config.max_seq_len, 8192);
    assert!(!plan.config.has_output_gate);
    assert!(!plan.config.has_qk_norm);
    let tensors = &plan.layers[0].tensors;
    assert_eq!(tensors.len(), 8);
    assert_eq!(
        tensors[1],
        TensorLoad {
            name: LayerName::AttnQ,
            kind: TensorKind::Matrix { out_dim: 8, in_dim: 8 },
            source: TensorSource::Raw,
        }
    );
    assert!(plan.layers[0].moe.is_none());
}

#[test]
fn a_named_tensor_must_be_in_a_source() {
    let src = raw_only(attention_tensors(8));
    let config = || tiny_config(vec![attention(FfnType::Dense)]);
    let mut names = names_of(&src);
    let at = names.iter().position(|n| n == "m.embed_tokens.weight").unwrap();
    names[at] = "m.tok_embeddings.weight".to_string();
    match Model::load(config(), &no_settings(), &src, &names) {
        Err(ModelError::MissingWeight(t)) => assert_eq!(t, "m.tok_embeddings.weight"),
        _ => panic!("loaded"),
    }
    let mut names = names_of(&src);
    let at = names.iter().position(|n| n == "m.norm.weight").unwrap();
    names[at] = "m.ln_f.weight".to_string();
    match Model::load(config(), &no_settings(), &src, &names) {
        Err(ModelError::MissingWeight(t)) => assert_eq!(t, "m.ln_f.weight"),
        _ => panic!("loaded"),
    }
}

#[test]
fn an_archive_that_fits_is_loaded_as_one_block() {
    let src = raw_only(attention_tensors(8));
    let config = || tiny_config(vec![attention(FfnType::Dense)]);
    let gib: u64 = 1 << 30;
    let set = LoadSettings { data_section: Some(gib), vram_free: 3 * gib, ..no_settings() };
    assert!(Model::load(config(), &set, &src, &names_of(&src)).ok().unwrap().arena);
    let set = LoadSettings { data_section: Some(gib), vram_free: 2 * gib, ..no_settings() };
    assert!(!Model::load(config(), &set, &src, &names_of(&src)).ok().unwrap().arena);
}

#[test]
fn a_doubled_query_projection_means_a_gate() {
    let src = raw_only(attention_tensors(16));
    let config = tiny_config(vec![attention(FfnType::Dense)]);
    let plan =
        Model::load_with_max_seq_len(config, Some(123), &no_settings(), &src, &names_of(&src))
            .unwrap();
    assert!(plan.config.has_output_gate);
    assert_eq!(plan.config.max_seq_len, 123);
    assert_eq!(plan.layers[0].tensors[1].kind, TensorKind::Matrix { out_dim: 16, in_dim: 8 });
}

#[test]
fn a_missing_tensor_is_named() {
    let mut entries = attention_tensors(8);
    entries.remove(2);
    let src = raw_only(entries);
    let config = tiny_config(vec![attention(FfnType::Dense)]);
    match Model::load(config, &no_settings(), &src, &names_of(&src)) {
        Err(ModelError::MissingWeight(t)) => assert_eq!(t, "m.layers.0.self_attn.k_proj.weight"),
        _ => panic!("the key projection is missing"),
    }
}

#[test]
fn the_archive_is_read_before_the_raw_set() {
    let mut src = raw_only(attention_tensors(8));
    let name = "m.layers.0.self_attn.q_proj.weight";
    src.packed = Some(PackedIndex { entries: vec![packed(name, 8, 8)], data_start: 64 });
    let want = Want {
        name: LayerName::AttnQ,
        other: Some(LayerName::MixerQ),
        kind: TensorKind::Matrix { out_dim: 8, in_dim: 8 },
        optional: false,
    };
    let p = "m.layers.0.";
    let source = |quantize, caching| resolve(&src, p, want, quantize, caching).unwrap().unwrap().source;
    assert_eq!(source(true, false), TensorSource::Packed);
    assert_eq!(source(false, false), TensorSource::Raw);
    let key = Want { name: LayerName::AttnK, other: None, ..want };
    let of_key = |q, c| resolve(&src, p, key, q, c).unwrap().unwrap().source;
    assert_eq!(of_key(true, true), TensorSource::RawCached);
    assert_eq!(of_key(true, false), TensorSource::Raw);
    let lone = Sources {
        packed: Some(PackedIndex { entries: vec![packed(name, 8, 8)], data_start: 64 }),
        raw: RawIndex { entries: Vec::new() },
    };
    let got = resolve(&lone, p, want, false, false).unwrap().unwrap();
    assert_eq!(got.source, TensorSource::PackedInstead);
}

#[test]
fn an_archived_vector_falls_back_to_the_raw_set() {
    let mut src = raw_only(attention_tensors(8));
    let norm = |len| Want {
        name: LayerName::InputLayernorm,
        other: None,
        kind: TensorKind::Half { len },
        optional: false,
    };
    let p = "m.layers.0.";
    let source = |src: &Sources| {
        resolve(src, p, norm(8), true, false).unwrap().unwrap().source
    };
    assert_eq!(source(&src), TensorSource::Raw);
    let entries = vec![packed("m.layers.0.input_layernorm.weight", 8, 1)];
    src.packed = Some(PackedIndex { entries, data_start: 64 });
    assert_eq!(source(&src), TensorSource::PackedFirst);
}

#[test]
fn an_optional_tensor_may_be_absent() {
    let src = raw_only(attention_tensors(8));
    let want = Want {
        name: LayerName::PostAttentionLayernorm,
        other: None,
        kind: TensorKind::Half { len: 8 },
        optional: true,
    };
    assert_eq!(resolve(&src, "m.layers.0.", want, true, false).unwrap(), None);
}

#[test]
fn linear_attention_splits_its_convolution() {
    let c = tiny_config(vec![LayerConfig { layer_type: LayerType::Gdn, ffn_type: FfnType::Dense }]);
    // queries and keys: 2 heads of 3, values: 4 heads of 5, kernel of 4
    let (q, k, v) = conv_parts(&c);
    assert_eq!(q, ConvPart { offset: 0, elements: 24 });
    assert_eq!(k, ConvPart { offset: 24, elements: 24 });
    assert_eq!(v, ConvPart { offset: 48, elements: 80 });
    let wants = plan_wants(&c, LayerType::Gdn, FfnType::Dense);
    assert_eq!(wants[0].kind, TensorKind::Conv { elements: 32 * 4 });
    assert_eq!(wants[2].kind, TensorKind::Matrix { out_dim: 32, in_dim: 8 });
    assert_eq!(wants.len(), 14);
}

fn moe(num_experts: usize, num_shared: usize) -> FfnType {
    FfnType::MoE {
        num_experts,
        num_active: 2,
        expert_intermediate_size: 3,
        num_shared,
        shared_intermediate_size: 0,
        gate_type: GateType::Softmax,
    }
}

#[test]
fn activation_buffers_follow_the_widest_expert() {
    let mut c = tiny_config(vec![attention(moe(6, 0)), attention(FfnType::Dense)]);
    c.has_output_gate = true;
    let a = activation_sizes(&c);
    assert_eq!(a.hidden, 8);
    assert_eq!(a.qkv, 2 * 3 * 2 + 4 * 5);
    assert_eq!(a.q_gate_attn, 16);
    assert_eq!(a.q_attn, 8);
    assert_eq!(a.moe_scores, 6);
    assert_eq!(a.moe_expert_ids, 2);
    assert_eq!(a.moe_expert_gate, 3);
    assert_eq!(a.prefill_moe_gate_out, 64 * 3);
    assert_eq!(a.normed_seq, 2);
    assert_eq!(a.mamba2_in_proj, 1);
    assert_eq!(largest_measure(&c.layers, ExpertMeasure::Widest), 3);
    assert_eq!(state_counts(&c).gdn, 0);
}

fn experts(loaded: bool) -> Vec<Option<LayerExperts>> {
    vec![Some(LayerExperts {
        loaded,
        shape: LoadedExperts {
            num_experts: 6,
            inter: 3,
            has_gate_proj: true,
            gate_up_format: WeightFormat::Bf16,
            gate_up_in_dim: None,
            down_format: WeightFormat::Bf16,
        },
    })]
}

fn packed_experts() -> PackedIndex {
    let entry = |name: &str, data_bytes: usize| PackedEntry {
        name: name.to_string(),
        info: PackedInfo {
            code: 1,
            format: Some(WeightFormat::Bf16),
            out_features: 6,
            in_features: 8,
            data_offset: 0,
            data_bytes,
        },
    };
    PackedIndex {
        entries: vec![
            entry("m.layers.0.mlp.experts.gate_up_proj", 600),
            entry("m.layers.0.mlp.experts.down_proj", 300),
        ],
        data_start: 0,
    }
}

#[test]
fn a_dense_model_is_not_spread() {
    let mut m = Model::new(tiny_config(vec![attention(FfnType::Dense)]), "m.".to_string(), None);
    assert!(m.enable_distributed_moe(&vec![None], None, 2, false).ok().unwrap().is_none());
    assert!(m.multi_gpu.is_none());
}

#[test]
fn experts_start_at_the_second_gpu() {
    let mut m = Model::new(tiny_config(vec![attention(moe(6, 0))]), "m.".to_string(), None);
    let plan = m.enable_distributed_moe(&experts(true), None, 2, true).ok().unwrap().unwrap();
    assert_eq!(plan.start_gpu, 1);
    match &plan.layers[0] {
        LayerDistribution::FromFirstGpu { dist, moves } => {
            assert_eq!(dist.expert_device, vec![1; 6]);
            assert_eq!(moves.len(), 6);
        }
        _ => panic!("the experts were loaded"),
    }
    let share = plan.attention.unwrap();
    assert_eq!((share.local_nqh, share.local_nkh), (1, 1));
    assert_eq!(plan.bring_up.unwrap().warm_order, vec![1, 0]);
    assert_eq!(m.multi_gpu.as_ref().unwrap().num_devices, 2);
    let alone = m.enable_distributed_moe(&experts(true), None, 1, false).ok().unwrap().unwrap();
    assert_eq!(alone.start_gpu, 0);
    assert!(alone.attention.is_none());
    assert!(alone.bring_up.is_none());
    assert!(m.multi_gpu.is_none());
}

#[test]
fn skipped_experts_come_from_the_archive() {
    let mut m = Model::new(tiny_config(vec![attention(moe(6, 0))]), "m.".to_string(), None);
    let index = packed_experts();
    let plan =
        m.enable_distributed_moe(&experts(false), Some(&index), 2, false).ok().unwrap().unwrap();
    match &plan.layers[0] {
        LayerDistribution::FromArchive { dist, moves } => {
            assert_eq!(dist.gate_up_expert_stride, 100);
            assert_eq!(moves.len(), 12);
        }
        _ => panic!("the experts were skipped"),
    }
    let empty = PackedIndex { entries: vec![], data_start: 0 };
    match m.enable_distributed_moe(&experts(false), Some(&empty), 2, false) {
        Err(ModelError::MissingWeight(t)) => {
            assert_eq!(t, "m.layers.0.mlp.experts.0.up_proj.weight")
        }
        _ => panic!("the archive holds no experts"),
    }
}

#[test]
fn models_that_cannot_be_spread_are_refused() {
    let mut m = Model::new(tiny_config(vec![attention(moe(6, 0))]), "m.".to_string(), None);
    match m.enable_distributed_moe(&experts(false), None, 1, false) {
        Err(ModelError::MissingWeight(t)) => assert!(t.starts_with("MULTI_GPU=1 but only 1 GPU")),
        _ => panic!("the experts were skipped"),
    }
    match m.enable_distributed_moe(&experts(false), None, 2, false) {
        Err(ModelError::MissingWeight(t)) => {
            assert_eq!(t, "Multi-GPU requires BQNT_PATH for direct expert loading")
        }
        _ => panic!("there is no archive"),
    }
    match m.enable_distributed_moe(&experts(true), None, 3, false) {
        Err(ModelError::InvalidConfig(t)) => assert_eq!(
            t,
            "multi-GPU attention requires num_q_heads (2) >= num_devices (3)"
        ),
        _ => panic!("there are too few heads"),
    }
    let mut c = tiny_config(vec![attention(moe(6, 0))]);
    c.num_q_heads = 5;
    let mut m = Model::new(c, "m.".to_string(), None);
    match m.enable_distributed_moe(&experts(true), None, 3, false) {
        Err(ModelError::InvalidConfig(t)) => assert_eq!(
            t,
            "multi-GPU attention requires num_q_heads (5) to be divisible by num_devices (3)"
        ),
        _ => panic!("the heads do not divide"),
    }
}

#[test]
fn query_slices_tile_the_projection() {
    let c = tiny_config(vec![attention(moe(6, 0))]);
    let share = AttnShare {
        local_nqh: 1,
        local_nkh: 1,
        head_dim: 4,
        max_seq_len: 128,
        hidden_size: 8,
        q_mult: 2,
    };
    let formats = vec![AttnFormats {
        q: WeightFormat::Bf16,
        k: WeightFormat::Bf16,
        v: WeightFormat::Bf16,
    }];
    // GPU 0 keeps the whole matrices; worker `g` gets the rows of its heads
    let slices = init_split_attn_weights(&c.layers, &formats, share, 3);
    assert_eq!(slices.len(), 2);
    assert_eq!((slices[0].gpu, slices[1].gpu), (1, 2));
    assert_eq!(slices[0].q.byte_offset, 8 * 8 * 2);
    assert_eq!(slices[0].q.byte_len, 8 * 8 * 2);
    assert_eq!(slices[1].q.byte_offset, 2 * 8 * 8 * 2);
    assert_eq!(slices[1].k.byte_offset, 0);
    assert_eq!(slices[1].v.byte_len, 4 * 8 * 2);
}

// ---- expert layers ----

fn expert_tensors() -> Vec<RawEntry> {
    let mut v = vec![raw("L.mlp.gate.weight", &[2, 8])];
    for e in 0..2 {
        v.push(raw(&format!("L.mlp.experts.{e}.gate_proj.weight"), &[3, 8]));
        v.push(raw(&format!("L.mlp.experts.{e}.up_proj.weight"), &[3, 8]));
        v.push(raw(&format!("L.mlp.experts.{e}.down_proj.weight"), &[8, 3]));
    }
    v
}

#[test]
fn gated_experts_are_gathered_in_turn() {
    let src = raw_only(expert_tensors());
    let c = tiny_config(vec![]);
    let plan = load_moe_weights(&src, "L.", &c, moe(2, 0)).unwrap();
    assert!(plan.has_gate_proj);
    assert_eq!(plan.gate.name, MoeName::MlpGate);
    assert_eq!(plan.gate.len, 16);
    let offsets: Vec<usize> = plan.expert_gate_up.pieces.iter().map(|p| p.offset).collect();
    assert_eq!(offsets, vec![0, 24, 48, 72]);
    assert!(matches!(
        plan.expert_gate_up.source,
        ExpertSource::Gathered { elements: 96, out_dim: 12, in_dim: 8, cached: false, .. }
    ));
    let offsets: Vec<usize> = plan.expert_down.pieces.iter().map(|p| p.offset).collect();
    assert_eq!(offsets, vec![0, 24]);
    assert!(plan.shared_expert.is_none());
    assert!(plan.score_bias.is_none());
    let cached = load_moe_weights_cached(&src, "L.", &c, moe(2, 0)).unwrap();
    assert!(matches!(
        cached.expert_down.source,
        ExpertSource::Gathered { out_dim: 16, in_dim: 3, cached: true, .. }
    ));
}

#[test]
fn a_light_load_leaves_the_experts_out() {
    let src = raw_only(vec![raw("L.gate.weight", &[2, 8])]);
    let c = tiny_config(vec![]);
    let plan = load_moe_weights_lite(&src, "L.", &c, moe(2, 0)).unwrap();
    assert_eq!(plan.gate.name, MoeName::BareGate);
    assert!(!plan.has_gate_proj);
    assert_eq!(plan.expert_gate_up.source, ExpertSource::Skipped);
    assert_eq!(plan.expert_down.source, ExpertSource::Skipped);
    assert!(load_moe_weights_lite_cached(&src, "L.", &c, moe(2, 0)).is_ok());
    assert!(load_moe_weights(&src, "L.", &c, moe(2, 0)).is_err());
}

#[test]
fn a_layer_without_router_is_refused() {
    let src = raw_only(Vec::new());
    let c = tiny_config(vec![]);
    match load_moe_weights_lite(&src, "L.", &c, moe(2, 0)) {
        Err(ModelError::MissingWeight(t)) => assert_eq!(t, "L.mlp.gate.weight (or variants)"),
        _ => panic!("there is no router"),
    }
}

#[test]
fn packed_experts_are_joined() {
    let entries = vec![
        packed("L.experts.0.up_proj.weight", 3, 8),
        packed("L.experts.1.up_proj.weight", 3, 8),
    ];
    let src = Sources {
        packed: Some(PackedIndex { entries, data_start: 0 }),
        raw: RawIndex { entries: Vec::new() },
    };
    let first = MoeName::Expert { scheme: ExpertScheme::Bare, part: ExpertPart::Up, expert: 0 };
    let load = concat_per_expert_bqnt(&src, "L.", first, 2).unwrap();
    assert_eq!(
        load.source,
        ExpertSource::PackedEach {
            first,
            bytes: 3 * 132,
            format: WeightFormat::Rnf4G128,
            out_dim: 6,
            in_dim: 8,
        }
    );
    assert!(load.pieces.is_empty());
    let places: Vec<(&str, usize, usize)> =
        load.joined.iter().map(|p| (p.name.as_str(), p.offset, p.bytes)).collect();
    assert_eq!(
        places,
        vec![
            ("L.experts.0.up_proj.weight", 0, 396),
            ("L.experts.1.up_proj.weight", 396, 396),
        ]
    );
    assert!(concat_per_expert_bqnt(&src, "L.", first, 3).is_none());
}

#[test]
fn joined_experts_stay_in_their_layer() {
    let entries = vec![
        packed("layers.0.mlp.experts.0.up_proj.weight", 3, 8),
        packed("layers.0.mlp.experts.1.up_proj.weight", 3, 8),
        packed("layers.1.mlp.experts.1.up_proj.weight", 3, 8),
    ];
    let src = Sources {
        packed: Some(PackedIndex { entries, data_start: 0 }),
        raw: RawIndex { entries: Vec::new() },
    };
    let first = MoeName::Expert { scheme: ExpertScheme::Mlp, part: ExpertPart::Up, expert: 0 };
    let load = concat_per_expert_bqnt(&src, "layers.0.", first, 2).unwrap();
    let names: Vec<&str> = load.joined.iter().map(|p| p.name.as_str()).collect();
    assert_eq!(
        names,
        vec!["layers.0.mlp.experts.0.up_proj.weight", "layers.0.mlp.experts.1.up_proj.weight"]
    );
    assert_eq!(
        expert_entry_name(first, 12).text("m.layers.7."),
        "m.layers.7.mlp.experts.12.up_proj.weight"
    );
}

#[test]
fn a_shared_expert_needs_up_and_down() {
    let c = tiny_config(vec![]);
    let mut entries = expert_tensors();
    entries.push(raw("L.shared_experts.up_proj.weight", &[3, 8]));
    let src = raw_only(entries);
    match load_moe_weights(&src, "L.", &c, moe(2, 1)) {
        Err(ModelError::MissingWeight(t)) => {
            assert_eq!(t, "L.mlp.shared_expert.down_proj.weight")
        }
        _ => panic!("the down matrix is missing"),
    }
    let mut entries = expert_tensors();
    entries.push(raw("L.shared_experts.up_proj.weight", &[3, 8]));
    entries.push(raw("L.mlp.shared_expert.down_proj.weight", &[8, 3]));
    let src = raw_only(entries);
    let shared = load_moe_weights(&src, "L.", &c, moe(2, 1)).unwrap().shared_expert.unwrap();
    assert!(shared.gate.is_none());
    assert_eq!((shared.up.out_dim, shared.up.in_dim), (3, 8));
    assert_eq!((shared.down.out_dim, shared.down.in_dim), (8, 3));
}

#[test]
fn a_shared_expert_is_made_of_matrices() {
    let c = tiny_config(vec![]);
    let mut odd = packed("L.shared_experts.gate_proj.weight", 3, 8);
    odd.info.format = None;
    let entries = vec![
        packed("L.shared_experts.up_proj.weight", 3, 8),
        packed("L.shared_experts.down_proj.weight", 8, 3),
        odd,
    ];
    let src = Sources {
        packed: Some(PackedIndex { entries, data_start: 0 }),
        raw: RawIndex { entries: vec![raw("L.gate.weight", &[2, 8])] },
    };
    match load_moe_weights_lite(&src, "L.", &c, moe(2, 1)) {
        Err(ModelError::MissingWeight(t)) => assert_eq!(t, "L.shared_experts.gate_proj.weight"),
        _ => panic!("a gate tensor must be a matrix"),
    }
}

#[test]
fn a_latent_projection_must_be_linear() {
    let mut bad = packed("L.fc1_latent_proj.weight", 4, 8);
    bad.info.format = None;
    let src = Sources {
        packed: Some(PackedIndex { entries: vec![bad, packed("L.fc2_latent_proj.weight", 8, 4)], data_start: 96 }),
        raw: RawIndex { entries: Vec::new() },
    };
    match load_latent_proj(&src, "L.", MoeName::LatentIn, None) {
        Err(ModelError::InvalidConfig(t)) => {
            assert_eq!(t, "L.fc1_latent_proj.weight: not a linear bqnt format")
        }
        _ => panic!("the format is not linear"),
    }
    match load_latent_proj(&src, "L.", MoeName::LatentOut, Some(96)).unwrap() {
        Some(LatentLoad::Packed { at, out_dim, .. }) => {
            assert_eq!((at, out_dim), (Some(4000), 8))
        }
        _ => panic!("the archive holds it"),
    }
    assert!(load_latent_proj(&raw_only(Vec::new()), "L.", MoeName::LatentIn, None).unwrap().is_none());
}

#[test]
fn a_bias_of_the_wrong_size_is_read_from_the_raw_set() {
    let mut entry = packed("L.gate.e_score_correction_bias", 1, 1);
    entry.info.data_bytes = 7;
    let mut src = Sources {
        packed: Some(PackedIndex { entries: vec![entry], data_start: 0 }),
        raw: RawIndex { entries: Vec::new() },
    };
    match plan_bias(&src, "L.", 2) {
        Err(ModelError::MissingWeight(t)) => assert_eq!(t, "L.gate.e_score_correction_bias"),
        _ => panic!("the archive's bias has another size"),
    }
    src.raw.entries.push(raw("L.gate.e_score_correction_bias", &[2]));
    assert_eq!(
        plan_bias(&src, "L.", 2).unwrap(),
        Some(BiasLoad { name: MoeName::BareGateBias, from_packed: false })
    );
    src.packed.as_mut().unwrap().entries[0].info.data_bytes = 8;
    assert!(plan_bias(&src, "L.", 2).unwrap().unwrap().from_packed);
}
