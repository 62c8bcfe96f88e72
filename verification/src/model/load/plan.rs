//! The load plan of a whole model.

use vstd::prelude::*;
use vstd::string::*;
use crate::config::{FfnType, LayerType, ModelConfig, WeightQuantMode};
use crate::error::{Fault, ModelError};
use crate::model::instance;
use crate::model::instance::{any_moe_exec, Model};
use crate::model::load::buffers;
use crate::model::load::buffers::{activation_sizes, state_counts, ActivationSizes, StateCounts};
use crate::model::load::layer;
use crate::model::load::layer::{
    find_source, resolve_all, LayerName, TensorKind, TensorLoad, TensorSource,
};
use crate::model::load::names;
use crate::model::load::names::{
    discover_prefix, embed_name, has_output_gate, has_qk_norm, lm_head_name, norm_name,
};
use crate::model::load::settings;
use crate::model::load::settings::{
    check_kv_quant, effective_max_seq_len, parse_quant_layers, quantizes_layer, use_weight_arena,
    weight_quant_mode, LayerRange,
};
use crate::model::load::wants;
use crate::model::load::wants::plan_wants;
use crate::moe_weights::layer as moe_layer;
use crate::moe_weights::layer::load_moe_weights_inner;
use crate::moe_weights::load::MoeLoadPlan;
use crate::tensors::{Place, Sources};
use crate::text;
use crate::text::{decimal_text, joined};

verus! {

/// What one layer loads.
pub struct LayerPlan {
    /// Prefix of its tensors.
    pub prefix: String,
    /// Prefix of its expert tensors.
    pub moe_prefix: String,
    pub tensors: Vec<TensorLoad>,
    pub moe: Option<MoeLoadPlan>,
}

/// Prefix of a layer's tensors.
pub open spec fn layer_at(prefix: Seq<char>, i: nat) -> Seq<char> {
    prefix + "layers."@ + text::decimal(i) + "."@
}

/// Whether a layer has experts to load.
pub open spec fn loads_experts(layer_type: LayerType, ffn: FfnType) -> bool {
    layer_type == LayerType::MoeFfn || (layer_type != LayerType::Mamba2 && ffn.is_moe())
}

/// Prefix of a layer's expert tensors: a standalone expert layer keeps them under
/// `mixer.` or `mlp.`.
pub open spec fn expert_prefix(src: &Sources, p: Seq<char>, layer_type: LayerType) -> Seq<char> {
    if layer_type == LayerType::MoeFfn {
        if src.holds(Place::Either, LayerName::MixerGate.full(p)) {
            p + "mixer."@
        } else {
            p + "mlp."@
        }
    } else {
        p
    }
}

/// A layer can be planned: its sizes are addressable and its sources consistent.
#[verifier::opaque]
pub open spec fn plannable(
    src: &Sources,
    p: Seq<char>,
    config: &ModelConfig,
    layer_type: LayerType,
    ffn: FfnType,
    multi_gpu: bool,
    caching: bool,
) -> bool {
    &&& wants::sizes_fit(config)
    &&& layer_type == LayerType::Mamba2 ==> config.recurrent_kind is Mamba2
    &&& layer_type == LayerType::MoeFfn ==> ffn.is_moe()
    &&& forall|k: int|
        0 <= k < wants::layer_wants(config, layer_type, ffn).len() ==> layer::usable(
            src,
            p,
            #[trigger] wants::layer_wants(config, layer_type, ffn)[k],
        )
    &&& loads_experts(layer_type, ffn) ==> {
        &&& moe_layer::shape_of(config, ffn).fits()
        &&& moe_layer::loadable(
            src,
            expert_prefix(src, p, layer_type),
            moe_layer::shape_of(config, ffn),
            multi_gpu,
            caching,
        )
    }
}

/// The tensors of a layer, or the first that is missing.
pub open spec fn layer_tensors(
    src: &Sources,
    p: Seq<char>,
    config: &ModelConfig,
    layer_type: LayerType,
    ffn: FfnType,
    quantize: bool,
    caching: bool,
) -> Result<Seq<TensorLoad>, Seq<char>> {
    layer::all_resolved(src, p, wants::layer_wants(config, layer_type, ffn), quantize, caching)
}

/// The first thing that goes wrong in a layer.
#[verifier::opaque]
pub open spec fn layer_fault(
    src: &Sources,
    p: Seq<char>,
    config: &ModelConfig,
    layer_type: LayerType,
    ffn: FfnType,
    quantize: bool,
    multi_gpu: bool,
    caching: bool,
) -> Option<Fault> {
    match layer_tensors(src, p, config, layer_type, ffn, quantize, caching) {
        Err(t) => Some(Fault::Missing(t)),
        Ok(_) => if loads_experts(layer_type, ffn) {
            moe_layer::layer_fault(
                src,
                expert_prefix(src, p, layer_type),
                config,
                ffn,
                multi_gpu,
                caching,
            )
        } else {
            None
        },
    }
}

/// What a layer's plan holds.
#[verifier::opaque]
pub open spec fn is_layer(
    l: &LayerPlan,
    src: &Sources,
    p: Seq<char>,
    config: &ModelConfig,
    layer_type: LayerType,
    ffn: FfnType,
    quantize: bool,
    multi_gpu: bool,
    caching: bool,
) -> bool {
    &&& l.prefix@ == p
    &&& l.moe_prefix@ == expert_prefix(src, p, layer_type)
    &&& l.tensors@ == layer_tensors(src, p, config, layer_type, ffn, quantize, caching)->Ok_0
    &&& l.moe is Some <==> loads_experts(layer_type, ffn)
    &&& l.moe matches Some(m) ==> moe_layer::is_layer_plan(
        &m,
        src,
        expert_prefix(src, p, layer_type),
        config,
        ffn,
        multi_gpu,
        caching,
    )
}

/// Plans one layer. On several GPUs the experts themselves are left out.
pub fn plan_layer(
    src: &Sources,
    p: &str,
    config: &ModelConfig,
    layer_type: LayerType,
    ffn: FfnType,
    quantize: bool,
    multi_gpu: bool,
    caching: bool,
) -> (r: Result<LayerPlan, ModelError>)
    requires
        plannable(src, p@, config, layer_type, ffn, multi_gpu, caching),
    ensures
        ({
            let fault = layer_fault(
                src,
                p@,
                config,
                layer_type,
                ffn,
                quantize,
                multi_gpu,
                caching,
            );
            &&& r is Err <==> fault is Some
            &&& r matches Err(e) ==> e.reports(fault->0)
            &&& r matches Ok(l) ==> is_layer(
                &l,
                src,
                p@,
                config,
                layer_type,
                ffn,
                quantize,
                multi_gpu,
                caching,
            )
        }),
{
    reveal(plannable);
    reveal(layer_fault);
    reveal(is_layer);
    let list = plan_wants(config, layer_type, ffn);
    let tensors = match resolve_all(src, p, &list, quantize, caching) {
        Ok(t) => t,
        Err(e) => {
            return Err(e);
        },
    };
    let experts = layer_type == LayerType::MoeFfn || (layer_type != LayerType::Mamba2
        && ffn.moe());
    let prefix: String = p.to_owned();
    let moe_prefix: String = if layer_type == LayerType::MoeFfn {
        let gate = LayerName::MixerGate.text(p);
        if src.find(Place::Either, gate.as_str()) {
            joined(p, "mixer.")
        } else {
            joined(p, "mlp.")
        }
    } else {
        p.to_owned()
    };
    if !experts {
        return Ok(LayerPlan { prefix, moe_prefix, tensors, moe: None });
    }
    match load_moe_weights_inner(src, moe_prefix.as_str(), config, ffn, multi_gpu, caching) {
        Ok(m) => Ok(LayerPlan { prefix, moe_prefix, tensors, moe: Some(m) }),
        Err(e) => Err(e),
    }
}

// ---- all layers ----

/// Whether layer `i` is quantized.
pub open spec fn quantized(ranges: Option<Seq<LayerRange>>, i: int) -> bool {
    ranges is None || settings::in_ranges(ranges->0, i as usize)
}

/// What goes wrong in layer `i`.
pub open spec fn fault_at(
    src: &Sources,
    prefix: Seq<char>,
    config: &ModelConfig,
    ranges: Option<Seq<LayerRange>>,
    multi_gpu: bool,
    caching: bool,
    i: int,
) -> Option<Fault> {
    layer_fault(
        src,
        layer_at(prefix, i as nat),
        config,
        config.layers@[i].layer_type,
        config.layers@[i].ffn_type,
        quantized(ranges, i),
        multi_gpu,
        caching,
    )
}

/// The fault of the first of the first `n` layers that has one.
pub open spec fn first_fault(
    src: &Sources,
    prefix: Seq<char>,
    config: &ModelConfig,
    ranges: Option<Seq<LayerRange>>,
    multi_gpu: bool,
    caching: bool,
    n: int,
) -> Option<Fault>
    decreases n,
{
    if n <= 0 {
        None
    } else {
        match first_fault(src, prefix, config, ranges, multi_gpu, caching, n - 1) {
            Some(f) => Some(f),
            None => fault_at(src, prefix, config, ranges, multi_gpu, caching, n - 1),
        }
    }
}

proof fn lemma_first_fault(
    src: &Sources,
    prefix: Seq<char>,
    config: &ModelConfig,
    ranges: Option<Seq<LayerRange>>,
    multi_gpu: bool,
    caching: bool,
    n: int,
    m: int,
)
    requires
        n <= m,
        first_fault(src, prefix, config, ranges, multi_gpu, caching, n) is Some,
    ensures
        first_fault(src, prefix, config, ranges, multi_gpu, caching, m) == first_fault(
            src,
            prefix,
            config,
            ranges,
            multi_gpu,
            caching,
            n,
        ),
    decreases m - n,
{
    if n < m {
        lemma_first_fault(src, prefix, config, ranges, multi_gpu, caching, n, m - 1);
    }
}

/// What layer `i`'s plan holds.
pub open spec fn is_layer_at(
    l: &LayerPlan,
    src: &Sources,
    prefix: Seq<char>,
    config: &ModelConfig,
    ranges: Option<Seq<LayerRange>>,
    multi_gpu: bool,
    caching: bool,
    i: int,
) -> bool {
    is_layer(
        l,
        src,
        layer_at(prefix, i as nat),
        config,
        config.layers@[i].layer_type,
        config.layers@[i].ffn_type,
        quantized(ranges, i),
        multi_gpu,
        caching,
    )
}

/// Every layer can be planned.
pub open spec fn all_plannable(
    src: &Sources,
    prefix: Seq<char>,
    config: &ModelConfig,
    multi_gpu: bool,
    caching: bool,
) -> bool {
    &&& config.num_layers <= config.layers@.len()
    &&& forall|i: int|
        0 <= i < config.num_layers ==> plannable(
            src,
            #[trigger] layer_at(prefix, i as nat),
            config,
            config.layers@[i].layer_type,
            config.layers@[i].ffn_type,
            multi_gpu,
            caching,
        )
}

/// Plans all layers.
pub fn plan_layers(
    src: &Sources,
    prefix: &str,
    config: &ModelConfig,
    ranges: Option<&Vec<LayerRange>>,
    multi_gpu: bool,
    caching: bool,
) -> (r: Result<Vec<LayerPlan>, ModelError>)
    requires
        all_plannable(src, prefix@, config, multi_gpu, caching),
    ensures
        ({
            let rs = match ranges {
                Some(v) => Some(v@),
                None => None,
            };
            let fault = first_fault(
                src,
                prefix@,
                config,
                rs,
                multi_gpu,
                caching,
                config.num_layers as int,
            );
            &&& r is Err <==> fault is Some
            &&& r matches Err(e) ==> e.reports(fault->0)
            &&& r matches Ok(ls) ==> {
                &&& ls@.len() == config.num_layers
                &&& forall|i: int|
                    0 <= i < ls@.len() ==> is_layer_at(
                        #[trigger] &ls@[i],
                        src,
                        prefix@,
                        config,
                        rs,
                        multi_gpu,
                        caching,
                        i,
                    )
            }
        }),
{
    let ghost rs = match ranges {
        Some(v) => Some(v@),
        None => None,
    };
    let mut ls: Vec<LayerPlan> = Vec::new();
    let mut i: usize = 0;
    while i < config.num_layers
        invariant
            i <= config.num_layers,
            all_plannable(src, prefix@, config, multi_gpu, caching),
            rs == (match ranges {
                Some(v) => Some(v@),
                None => None,
            }),
            first_fault(src, prefix@, config, rs, multi_gpu, caching, i as int) is None,
            ls@.len() == i,
            forall|k: int|
                0 <= k < i ==> is_layer_at(
                    #[trigger] &ls@[k],
                    src,
                    prefix@,
                    config,
                    rs,
                    multi_gpu,
                    caching,
                    k,
                ),
        decreases config.num_layers - i,
    {
        let mut p: String = joined(prefix, "layers.");
        p.append(decimal_text(i).as_str());
        p.append(".");
        let l = config.layers[i];
        proof {
            let at = i as int;
            assert(p@ == layer_at(prefix@, at as nat));
        }
        let quantize = quantizes_layer(ranges, i);
        match plan_layer(
            src,
            p.as_str(),
            config,
            l.layer_type,
            l.ffn_type,
            quantize,
            multi_gpu,
            caching,
        ) {
            Ok(plan) => {
                ls.push(plan);
            },
            Err(e) => {
                proof {
                    lemma_first_fault(
                        src,
                        prefix@,
                        config,
                        rs,
                        multi_gpu,
                        caching,
                        i + 1,
                        config.num_layers as int,
                    );
                }
                return Err(e);
            },
        }
        i += 1;
    }
    Ok(ls)
}

// ---- the model ----

/// What steers a load. `caching` says that converted matrices are written to an
/// archive under construction.
pub struct LoadSettings {
    pub kv_quant: bool,
    pub multi_gpu: bool,
    pub weight_quant: Option<String>,
    pub quant_layers: Option<String>,
    pub caching: bool,
    /// Bytes of the archive's data section, where there is one.
    pub data_section: Option<u64>,
    /// Free device memory in bytes; 0 where it is not known.
    pub vram_free: u64,
}

/// A vector that belongs to no layer: its name, its elements, and where it is read
/// from.
#[derive(Debug, PartialEq, Eq)]
pub struct NamedLoad {
    pub name: String,
    pub len: usize,
    pub source: TensorSource,
}

/// Where a vector that belongs to no layer is read from.
pub open spec fn named_source(src: &Sources, name: Seq<char>) -> Option<TensorSource> {
    layer::source_of(src, name, TensorKind::Half { len: 0 }, false, false)
}

impl NamedLoad {
    pub open spec fn is_load(&self, src: &Sources, name: Seq<char>, len: int) -> bool {
        &&& self.name@ == name
        &&& self.len == len
        &&& Some(self.source) == named_source(src, name)
    }
}

fn plan_named(src: &Sources, name: String, len: usize) -> (r: Result<NamedLoad, ModelError>)
    ensures
        r is Err <==> named_source(src, name@) is None,
        r matches Err(e) ==> e.is_missing(name@),
        r matches Ok(l) ==> l.is_load(src, name@, len as int),
{
    match find_source(src, name.as_str(), TensorKind::Half { len: 0 }, false, false) {
        Some(source) => Ok(NamedLoad { name, len, source }),
        None => Err(ModelError::MissingWeight(name)),
    }
}

/// Everything a model loads, and the buffers it needs besides.
pub struct ModelLoadPlan {
    /// The description with its detected features filled in.
    pub config: ModelConfig,
    pub prefix: String,
    pub embed: NamedLoad,
    /// None where the LM head shares the embedding.
    pub lm_head: Option<NamedLoad>,
    pub final_norm: NamedLoad,
    /// The archive's data section becomes resident as one block.
    pub arena: bool,
    pub layers: Vec<LayerPlan>,
    pub activations: ActivationSizes,
    pub states: StateCounts,
}

impl LoadSettings {
    pub open spec fn ranges(&self) -> Option<Seq<LayerRange>> {
        match self.quant_layers {
            Some(s) => Some(settings::ranges_of(settings::comma_parts(s@))),
            None => None,
        }
    }

    /// The archive's data section becomes resident as one block: on a single GPU,
    /// without experts, and where it fits with headroom.
    pub open spec fn arena(&self, config: &ModelConfig) -> bool {
        !self.multi_gpu && !instance::any_moe(config.layers@) && self.data_section is Some && (
        self.vram_free == 0 || self.data_section->0 + settings::ARENA_VRAM_HEADROOM_BYTES
            <= self.vram_free)
    }

    pub open spec fn quant_mode(&self) -> WeightQuantMode {
        match self.weight_quant {
            Some(s) => if s@ == "rnf4"@ {
                WeightQuantMode::Rnf4
            } else if s@ == "mixed"@ {
                WeightQuantMode::Mixed
            } else {
                WeightQuantMode::Bf16
            },
            None => WeightQuantMode::Bf16,
        }
    }
}

/// The longest sequence: what the caller asks for, else what the model claims, up to
/// the default.
pub open spec fn longest_sequence(asked: Option<usize>, claimed: usize) -> usize {
    match asked {
        Some(n) => n,
        None => if claimed <= settings::DEFAULT_MAX_SEQ_LEN {
            claimed
        } else {
            settings::DEFAULT_MAX_SEQ_LEN
        },
    }
}

/// Prefix of the model's tensors, where there is one.
pub open spec fn model_prefix(tensor_names: Seq<String>) -> Seq<char> {
    names::prefix_of(tensor_names)->0
}

pub open spec fn embed_of(tensor_names: Seq<String>) -> Option<Seq<char>> {
    names::preferred(
        tensor_names,
        names::NameRule::EmbedUnderPrefix,
        names::NameRule::Embed,
        model_prefix(tensor_names),
    )
}

pub open spec fn final_norm_of(tensor_names: Seq<String>) -> Option<Seq<char>> {
    names::preferred(
        tensor_names,
        names::NameRule::FinalNormUnderPrefix,
        names::NameRule::FinalNorm,
        model_prefix(tensor_names),
    )
}

pub open spec fn lm_head_of(tensor_names: Seq<String>) -> Option<Seq<char>> {
    names::first_name(tensor_names, names::NameRule::LmHead, Seq::empty())
}

/// The description as the load settles it.
pub open spec fn settled(
    config: ModelConfig,
    max_seq_len: Option<usize>,
    set: &LoadSettings,
    src: &Sources,
    tensor_names: Seq<String>,
) -> ModelConfig {
    ModelConfig {
        max_seq_len: longest_sequence(max_seq_len, config.max_seq_len),
        weight_quant: set.quant_mode(),
        has_qk_norm: names::first_name(tensor_names, names::NameRule::QkNorm, Seq::empty()) is Some,
        has_output_gate: names::output_gate(src, &config, model_prefix(tensor_names)),
        ..config
    }
}

/// The first thing that goes wrong in a load.
pub open spec fn model_fault(
    config: ModelConfig,
    max_seq_len: Option<usize>,
    set: &LoadSettings,
    src: &Sources,
    tensor_names: Seq<String>,
) -> Option<Fault> {
    let done = settled(config, max_seq_len, set, src, tensor_names);
    if set.kv_quant && set.multi_gpu {
        Some(
            Fault::Invalid(
                "KV_QUANT=1 is not supported with MULTI_GPU (multi-GPU paged KV dispatch not yet implemented). Either unset KV_QUANT, or unset MULTI_GPU."@,
            ),
        )
    } else if names::prefix_of(tensor_names) is None {
        Some(Fault::Missing("no layers.0. tensor found"@))
    } else if embed_of(tensor_names) is None {
        Some(Fault::Missing("embedding tensor not found"@))
    } else if final_norm_of(tensor_names) is None {
        Some(Fault::Missing("final norm tensor not found"@))
    } else if named_source(src, embed_of(tensor_names)->0) is None {
        Some(Fault::Missing(embed_of(tensor_names)->0))
    } else if !config.tie_word_embeddings && lm_head_of(tensor_names) is None {
        Some(Fault::Missing("lm_head.weight not found"@))
    } else if !config.tie_word_embeddings && named_source(src, lm_head_of(tensor_names)->0)
        is None {
        Some(Fault::Missing(lm_head_of(tensor_names)->0))
    } else if named_source(src, final_norm_of(tensor_names)->0) is None {
        Some(Fault::Missing(final_norm_of(tensor_names)->0))
    } else {
        first_fault(
            src,
            model_prefix(tensor_names),
            &done,
            set.ranges(),
            set.multi_gpu,
            set.caching,
            done.num_layers as int,
        )
    }
}

/// Sizes that a load computes fit the machine.
pub open spec fn loadable(
    config: ModelConfig,
    max_seq_len: Option<usize>,
    set: &LoadSettings,
    src: &Sources,
    tensor_names: Seq<String>,
) -> bool {
    &&& config.vocab_size * config.hidden_size <= usize::MAX
    &&& config.num_q_heads * config.head_dim * 2 <= usize::MAX
    &&& config.num_q_heads * config.head_dim * 2 * config.hidden_size * 2 <= usize::MAX
    &&& config.num_layers <= config.layers@.len()
    &&& set.data_section matches Some(n) ==> n + settings::ARENA_VRAM_HEADROOM_BYTES <= u64::MAX
    &&& buffers::activations_fit(&settled(config, max_seq_len, set, src, tensor_names))
    &&& all_plannable(
        src,
        model_prefix(tensor_names),
        &settled(config, max_seq_len, set, src, tensor_names),
        set.multi_gpu,
        set.caching,
    )
}

/// Neither the settings nor the lack of a first layer ends a load at once.
pub open spec fn gets_to_tensors(set: &LoadSettings, tensor_names: Seq<String>) -> bool {
    &&& !(set.kv_quant && set.multi_gpu)
    &&& names::prefix_of(tensor_names) is Some
}

/// The answer to a load: the first fault, or a plan for every tensor.
pub open spec fn load_outcome(
    config: ModelConfig,
    max_seq_len: Option<usize>,
    set: &LoadSettings,
    src: &Sources,
    tensor_names: Seq<String>,
    r: Result<ModelLoadPlan, ModelError>,
) -> bool {
    let fault = model_fault(config, max_seq_len, set, src, tensor_names);
    &&& r is Err <==> fault is Some
    &&& r is Err ==> r->Err_0.reports(fault->0)
    &&& r is Ok ==> {
        let plan = r->Ok_0;
        &&& plan.config == settled(config, max_seq_len, set, src, tensor_names)
        &&& plan.prefix@ == model_prefix(tensor_names)
        &&& plan.embed.is_load(
            src,
            embed_of(tensor_names)->0,
            config.vocab_size * config.hidden_size,
        )
        &&& plan.final_norm.is_load(
            src,
            final_norm_of(tensor_names)->0,
            config.hidden_size as int,
        )
        &&& plan.lm_head is Some <==> !config.tie_word_embeddings
        &&& plan.lm_head matches Some(l) ==> l.is_load(
            src,
            lm_head_of(tensor_names)->0,
            config.vocab_size * config.hidden_size,
        )
        &&& plan.arena == set.arena(&config)
        &&& plan.activations == buffers::activations_of(&plan.config)
        &&& plan.states == buffers::states_of(&plan.config)
        &&& plan.layers@.len() == config.num_layers
        &&& forall|i: int|
            0 <= i < plan.layers@.len() ==> is_layer_at(
                #[trigger] &plan.layers@[i],
                src,
                model_prefix(tensor_names),
                &plan.config,
                set.ranges(),
                set.multi_gpu,
                set.caching,
                i,
            )
    }
}

impl Model {
    /// Plans loading a model whose longest sequence is the default.
    pub fn load(
        config: ModelConfig,
        set: &LoadSettings,
        src: &Sources,
        tensor_names: &Vec<String>,
    ) -> (r: Result<ModelLoadPlan, ModelError>)
        requires
            gets_to_tensors(set, tensor_names@) ==> loadable(
                config,
                None,
                set,
                src,
                tensor_names@,
            ),
        ensures
            load_outcome(config, None, set, src, tensor_names@, r),
    {
        Self::load_with_max_seq_len(config, None, set, src, tensor_names)
    }

    /// Plans loading a model from its description, its sources and their tensor names.
    pub fn load_with_max_seq_len(
        config: ModelConfig,
        max_seq_len: Option<usize>,
        set: &LoadSettings,
        src: &Sources,
        tensor_names: &Vec<String>,
    ) -> (r: Result<ModelLoadPlan, ModelError>)
        requires
            gets_to_tensors(set, tensor_names@) ==> loadable(
                config,
                max_seq_len,
                set,
                src,
                tensor_names@,
            ),
        ensures
            load_outcome(config, max_seq_len, set, src, tensor_names@, r),
    {
        match check_kv_quant(set.kv_quant, set.multi_gpu) {
            Err(e) => {
                return Err(e);
            },
            Ok(_) => {},
        }
        let prefix = match discover_prefix(tensor_names) {
            Ok(p) => p,
            Err(e) => {
                return Err(e);
            },
        };
        let ghost given = config;
        let mode = weight_quant_mode(
            match &set.weight_quant {
                Some(s) => Some(s.as_str()),
                None => None,
            },
        );
        let gate = has_output_gate(src, &config, prefix.as_str());
        let embed_len: usize = config.vocab_size * config.hidden_size;
        let tied = config.tie_word_embeddings;
        let config = ModelConfig {
            max_seq_len: effective_max_seq_len(max_seq_len, config.max_seq_len),
            weight_quant: mode,
            has_qk_norm: has_qk_norm(tensor_names),
            has_output_gate: gate,
            ..config
        };
        assert(config == settled(given, max_seq_len, set, src, tensor_names@));
        let embed = match embed_name(tensor_names, prefix.as_str()) {
            Ok(n) => n,
            Err(e) => {
                return Err(e);
            },
        };
        let final_norm = match norm_name(tensor_names, prefix.as_str()) {
            Ok(n) => n,
            Err(e) => {
                return Err(e);
            },
        };
        let arena = use_weight_arena(
            set.multi_gpu,
            any_moe_exec(&config.layers),
            set.data_section,
            set.vram_free,
        );
        let embed = match plan_named(src, embed, embed_len) {
            Ok(l) => l,
            Err(e) => {
                return Err(e);
            },
        };
        let lm_head = match lm_head_name(tensor_names, tied) {
            Ok(Some(n)) => match plan_named(src, n, embed_len) {
                Ok(l) => Some(l),
                Err(e) => {
                    return Err(e);
                },
            },
            Ok(None) => None,
            Err(e) => {
                return Err(e);
            },
        };
        let final_norm = match plan_named(src, final_norm, config.hidden_size) {
            Ok(l) => l,
            Err(e) => {
                return Err(e);
            },
        };
        let ranges = match &set.quant_layers {
            Some(s) => Some(parse_quant_layers(s.as_str())),
            None => None,
        };
        let planned = plan_layers(
            src,
            prefix.as_str(),
            &config,
            match &ranges {
                Some(v) => Some(v),
                None => None,
            },
            set.multi_gpu,
            set.caching,
        );
        match planned {
            Ok(layers) => {
                let activations = activation_sizes(&config);
                let states = state_counts(&config);
                Ok(
                    ModelLoadPlan {
                        config,
                        prefix,
                        embed,
                        lm_head,
                        final_norm,
                        arena,
                        layers,
                        activations,
                        states,
                    },
                )
            },
            Err(e) => Err(e),
        }
    }
}

// ---- laws ----

/// The fault that is reported is that of the first layer that has one; without a fault no
/// layer has any.
pub proof fn law_first_fault(
    src: &Sources,
    prefix: Seq<char>,
    config: &ModelConfig,
    ranges: Option<Seq<LayerRange>>,
    multi_gpu: bool,
    caching: bool,
    n: int,
)
    ensures
        match first_fault(src, prefix, config, ranges, multi_gpu, caching, n) {
            Some(f) => exists|i: int|
                0 <= i < n && #[trigger] fault_at(
                    src,
                    prefix,
                    config,
                    ranges,
                    multi_gpu,
                    caching,
                    i,
                ) == Some(f) && forall|j: int|
                    0 <= j < i ==> #[trigger] fault_at(
                        src,
                        prefix,
                        config,
                        ranges,
                        multi_gpu,
                        caching,
                        j,
                    ) is None,
            None => forall|j: int|
                0 <= j < n ==> #[trigger] fault_at(
                    src,
                    prefix,
                    config,
                    ranges,
                    multi_gpu,
                    caching,
                    j,
                ) is None,
        },
    decreases n,
{
    if n > 0 {
        law_first_fault(src, prefix, config, ranges, multi_gpu, caching, n - 1);
        let last = fault_at(src, prefix, config, ranges, multi_gpu, caching, n - 1);
        if first_fault(src, prefix, config, ranges, multi_gpu, caching, n - 1) is None {
            assert(first_fault(src, prefix, config, ranges, multi_gpu, caching, n) == last);
        }
    }
}

/// No two layers read their tensors under one prefix.
pub proof fn law_layers_apart(prefix: Seq<char>, i: nat, j: nat)
    requires
        layer_at(prefix, i) == layer_at(prefix, j),
    ensures
        i == j,
{
    let head = prefix + "layers."@;
    let (a, b) = (text::decimal(i), text::decimal(j));
    let (x, y) = (layer_at(prefix, i), layer_at(prefix, j));
    assert(a.len() == b.len()) by {
        assert(x.len() == head.len() + a.len() + "."@.len());
        assert(y.len() == head.len() + b.len() + "."@.len());
    }
    assert forall|k: int| 0 <= k < a.len() implies a[k] == b[k] by {
        assert(x[head.len() + k] == a[k]);
        assert(y[head.len() + k] == b[k]);
    }
    assert(a =~= b);
    text::law_numbers_told_apart(i, j);
}

} // verus!
