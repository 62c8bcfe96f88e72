//! The model description the planners read.

use vstd::prelude::*;

verus! {

/// What the mixer of a layer is.
#[derive(Clone, Copy, Debug, PartialEq, Eq, Structural)]
pub enum LayerType {
    Attention,
    Gdn,
    Mamba2,
    MoeFfn,
    LfmConv,
}

/// How router scores become expert weights. Scaling factors are `f32` bit patterns.
#[derive(Clone, Copy, Debug, PartialEq, Eq, Structural)]
pub enum GateType {
    Softmax,
    NormTopK { routed_scaling_factor: u32 },
    Sigmoid { routed_scaling_factor: u32 },
}

/// The feed-forward part of a layer.
#[derive(Clone, Copy, Debug, PartialEq, Eq, Structural)]
pub enum FfnType {
    Dense,
    MoE {
        num_experts: usize,
        num_active: usize,
        expert_intermediate_size: usize,
        num_shared: usize,
        shared_intermediate_size: usize,
        gate_type: GateType,
    },
    Absent,
}

/// One layer: a mixer and a feed-forward part.
#[derive(Clone, Copy, Debug, PartialEq, Eq, Structural)]
pub struct LayerConfig {
    pub layer_type: LayerType,
    pub ffn_type: FfnType,
}

/// How recurrent layers are shaped.
#[derive(Clone, Copy, Debug, PartialEq, Eq, Structural)]
pub enum RecurrentLayerKind {
    Gdn,
    Mamba2 {
        num_heads: usize,
        head_dim: usize,
        state_dim: usize,
        conv_kernel: usize,
        conv_dim: usize,
        n_groups: usize,
    },
}

/// Quantization applied when weights are loaded.
#[derive(Clone, Copy, Debug, PartialEq, Eq, Structural)]
pub enum WeightQuantMode {
    Bf16,
    Rnf4,
    Mixed,
}

/// Model dimensions and switches. `rms_norm_eps` is an `f32` bit pattern.
pub struct ModelConfig {
    pub num_layers: usize,
    pub hidden_size: usize,
    pub intermediate_size: usize,
    pub vocab_size: usize,
    pub max_seq_len: usize,
    pub num_q_heads: usize,
    pub num_kv_heads: usize,
    pub head_dim: usize,
    pub rope_dim: usize,
    pub mrope_section: (usize, usize, usize),
    pub linear_num_heads: usize,
    pub linear_num_value_heads: usize,
    pub linear_key_head_dim: usize,
    pub linear_value_head_dim: usize,
    pub linear_conv_kernel_dim: usize,
    pub has_output_gate: bool,
    pub has_qk_norm: bool,
    pub use_rope: bool,
    pub rms_norm_one_plus_w: bool,
    pub tie_word_embeddings: bool,
    pub moe_latent_size: Option<usize>,
    pub weight_quant: WeightQuantMode,
    pub recurrent_kind: RecurrentLayerKind,
    pub rms_norm_eps: u32,
    pub layers: Vec<LayerConfig>,
}

/// How many of the layers have mixer `t`.
pub open spec fn count_layers(layers: Seq<LayerConfig>, t: LayerType) -> nat
    decreases layers.len(),
{
    if layers.len() == 0 {
        0
    } else {
        count_layers(layers.drop_last(), t) + if layers.last().layer_type == t { 1nat } else {
            0nat
        }
    }
}

/// A count never exceeds the number of layers.
pub proof fn lemma_count_layers_bound(layers: Seq<LayerConfig>, t: LayerType)
    ensures
        count_layers(layers, t) <= layers.len(),
    decreases layers.len(),
{
    if layers.len() > 0 {
        lemma_count_layers_bound(layers.drop_last(), t);
    }
}

/// Counts the layers before `end` whose mixer is `t`.
pub fn count_layers_before(layers: &Vec<LayerConfig>, end: usize, t: LayerType) -> (n: usize)
    requires
        end <= layers@.len(),
    ensures
        n == count_layers(layers@.take(end as int), t),
        n <= end,
{
    let mut n: usize = 0;
    let mut i: usize = 0;
    assert(layers@.take(0).len() == 0);
    while i < end
        invariant
            i <= end <= layers@.len(),
            n <= i,
            n == count_layers(layers@.take(i as int), t),
        decreases end - i,
    {
        assert(layers@.take(i + 1).drop_last() =~= layers@.take(i as int));
        if layers[i].layer_type == t {
            n += 1;
        }
        i += 1;
    }
    n
}

/// Counts the layers whose mixer is `t`.
pub fn count_layers_of(layers: &Vec<LayerConfig>, t: LayerType) -> (n: usize)
    ensures
        n == count_layers(layers@, t),
        n <= layers.len(),
{
    assert(layers@.take(layers@.len() as int) =~= layers@);
    count_layers_before(layers, layers.len(), t)
}

/// Index of the layer that is number `k` among those with mixer `t`.
pub open spec fn nth_layer(layers: Seq<LayerConfig>, t: LayerType, k: nat) -> int
    decreases layers.len(),
{
    if layers.len() == 0 {
        -1
    } else if layers.last().layer_type == t && count_layers(layers.drop_last(), t) == k {
        layers.len() - 1
    } else {
        nth_layer(layers.drop_last(), t, k)
    }
}

/// The layer `nth_layer` finds exists, has the mixer, and has `k` such before it.
pub proof fn lemma_nth_layer(layers: Seq<LayerConfig>, t: LayerType, k: nat)
    requires
        k < count_layers(layers, t),
    ensures
        ({
            let i = nth_layer(layers, t, k);
            &&& 0 <= i < layers.len()
            &&& layers[i].layer_type == t
            &&& count_layers(layers.take(i), t) == k
        }),
    decreases layers.len(),
{
    let front = layers.drop_last();
    if layers.last().layer_type == t && count_layers(front, t) == k {
        assert(layers.take(layers.len() - 1) =~= front);
    } else {
        lemma_nth_layer(front, t, k);
        let i = nth_layer(front, t, k);
        assert(front.take(i) =~= layers.take(i));
    }
}

/// Only one layer has the mixer and `k` such before it.
pub proof fn lemma_nth_layer_unique(layers: Seq<LayerConfig>, t: LayerType, k: nat, i: int)
    requires
        0 <= i < layers.len(),
        layers[i].layer_type == t,
        count_layers(layers.take(i), t) == k,
    ensures
        nth_layer(layers, t, k) == i,
        k < count_layers(layers, t),
    decreases layers.len(),
{
    let front = layers.drop_last();
    if i == layers.len() - 1 {
        assert(layers.take(i) =~= front);
    } else {
        assert(front.take(i) =~= layers.take(i));
        lemma_nth_layer_unique(front, t, k, i);
    }
}

/// Finds the layer that is number `k` among those with mixer `t`.
pub fn find_nth_layer(layers: &Vec<LayerConfig>, t: LayerType, k: usize) -> (r: usize)
    requires
        k < count_layers(layers@, t),
    ensures
        r == nth_layer(layers@, t, k as nat),
        r < layers@.len(),
        layers@[r as int].layer_type == t,
{
    let mut seen: usize = 0;
    let mut i: usize = 0;
    assert(layers@.take(0).len() == 0);
    while i < layers.len()
        invariant
            i <= layers@.len(),
            k < count_layers(layers@, t),
            seen <= i,
            seen <= k,
            seen == count_layers(layers@.take(i as int), t),
        decreases layers@.len() - i,
    {
        assert(layers@.take(i + 1).drop_last() =~= layers@.take(i as int));
        if layers[i].layer_type == t {
            if seen == k {
                proof {
                    lemma_nth_layer_unique(layers@, t, k as nat, i as int);
                }
                return i;
            }
            seen += 1;
        }
        i += 1;
    }
    proof {
        assert(layers@.take(i as int) =~= layers@);
        assert(false);
    }
    0
}

impl FfnType {
    /// Whether experts serve this feed-forward part.
    pub open spec fn is_moe(self) -> bool {
        self is MoE
    }

    pub fn moe(&self) -> (r: bool)
        ensures
            r == self.is_moe(),
    {
        matches!(self, FfnType::MoE { .. })
    }
}

impl ModelConfig {
    pub open spec fn attn_layers(&self) -> nat {
        count_layers(self.layers@, LayerType::Attention)
    }

    pub open spec fn recurrent_layers(&self) -> nat {
        count_layers(self.layers@, LayerType::Gdn)
    }

    /// Number of attention layers.
    pub fn num_attn_layers(&self) -> (n: usize)
        ensures
            n == self.attn_layers(),
    {
        count_layers_of(&self.layers, LayerType::Attention)
    }

    /// Number of gated-delta-net layers.
    pub fn num_recurrent_layers(&self) -> (n: usize)
        ensures
            n == self.recurrent_layers(),
    {
        count_layers_of(&self.layers, LayerType::Gdn)
    }
}

} // verus!
