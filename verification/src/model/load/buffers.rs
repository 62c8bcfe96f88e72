//! Sizes of the activation and state buffers a loaded model needs.

use vstd::prelude::*;
use crate::config;
use crate::config::{count_layers_before, FfnType, LayerConfig, LayerType, ModelConfig, RecurrentLayerKind};
use crate::model::state;
use crate::ops::CHUNK_TOKENS;

verus! {

/// A measure of an expert layer.
#[derive(Clone, Copy, Debug, PartialEq, Eq, Structural)]
pub enum ExpertMeasure {
    Experts,
    Active,
    Inter,
    /// The wider of routed and shared experts.
    Widest,
}

/// A layer's measure, where it has experts.
pub open spec fn measure(m: ExpertMeasure, ffn: FfnType) -> Option<usize> {
    match ffn {
        FfnType::MoE {
            num_experts,
            num_active,
            expert_intermediate_size,
            shared_intermediate_size,
            ..
        } => Some(
            match m {
                ExpertMeasure::Experts => num_experts,
                ExpertMeasure::Active => num_active,
                ExpertMeasure::Inter => expert_intermediate_size,
                ExpertMeasure::Widest => if expert_intermediate_size >= shared_intermediate_size {
                    expert_intermediate_size
                } else {
                    shared_intermediate_size
                },
            },
        ),
        _ => None,
    }
}

/// The largest measure among the layers; none without experts.
pub open spec fn largest(layers: Seq<LayerConfig>, m: ExpertMeasure) -> Option<usize>
    decreases layers.len(),
{
    if layers.len() == 0 {
        None
    } else {
        let rest = largest(layers.drop_last(), m);
        match measure(m, layers.last().ffn_type) {
            None => rest,
            Some(x) => match rest {
                None => Some(x),
                Some(y) => if x >= y {
                    Some(x)
                } else {
                    Some(y)
                },
            },
        }
    }
}

/// The largest measure, or one.
pub open spec fn largest_or_one(layers: Seq<LayerConfig>, m: ExpertMeasure) -> usize {
    match largest(layers, m) {
        Some(x) => x,
        None => 1,
    }
}

fn measure_exec(m: ExpertMeasure, ffn: FfnType) -> (r: Option<usize>)
    ensures
        r == measure(m, ffn),
{
    match ffn {
        FfnType::MoE {
            num_experts,
            num_active,
            expert_intermediate_size,
            shared_intermediate_size,
            ..
        } => Some(
            match m {
                ExpertMeasure::Experts => num_experts,
                ExpertMeasure::Active => num_active,
                ExpertMeasure::Inter => expert_intermediate_size,
                ExpertMeasure::Widest => if expert_intermediate_size >= shared_intermediate_size {
                    expert_intermediate_size
                } else {
                    shared_intermediate_size
                },
            },
        ),
        _ => None,
    }
}

/// The largest measure among the layers, or one.
pub fn largest_measure(layers: &Vec<LayerConfig>, m: ExpertMeasure) -> (r: usize)
    ensures
        r == largest_or_one(layers@, m),
{
    let mut best: Option<usize> = None;
    let mut i: usize = 0;
    assert(layers@.take(0).len() == 0);
    while i < layers.len()
        invariant
            i <= layers@.len(),
            best == largest(layers@.take(i as int), m),
        decreases layers@.len() - i,
    {
        assert(layers@.take(i + 1).drop_last() =~= layers@.take(i as int));
        match measure_exec(m, layers[i].ffn_type) {
            None => {},
            Some(x) => {
                best =
                match best {
                    None => Some(x),
                    Some(y) => if x >= y {
                        Some(x)
                    } else {
                        Some(y)
                    },
                };
            },
        }
        i += 1;
    }
    assert(layers@.take(i as int) =~= layers@);
    match best {
        Some(x) => x,
        None => 1,
    }
}

/// Every layer's experts fit a buffer of the largest measure.
pub proof fn law_largest_bounds_all(layers: Seq<LayerConfig>, m: ExpertMeasure, i: int)
    requires
        0 <= i < layers.len(),
        measure(m, layers[i].ffn_type) is Some,
    ensures
        measure(m, layers[i].ffn_type)->0 <= largest_or_one(layers, m),
        largest(layers, m) is Some,
    decreases layers.len(),
{
    if i < layers.len() - 1 {
        law_largest_bounds_all(layers.drop_last(), m, i);
    }
}

// ---- activations ----

/// Elements of every activation buffer.
#[derive(Clone, Copy, Debug, PartialEq, Eq, Structural)]
pub struct ActivationSizes {
    pub hidden: usize,
    pub qkv: usize,
    pub q_gdn: usize,
    pub k_gdn: usize,
    pub v_gdn: usize,
    pub a_proj: usize,
    pub b_proj: usize,
    pub z_proj: usize,
    pub gate_gdn: usize,
    pub recurrent_out: usize,
    pub normed_gated: usize,
    pub q_gate_attn: usize,
    pub q_attn: usize,
    pub gate_attn: usize,
    pub k_attn: usize,
    pub v_attn: usize,
    pub attn_out: usize,
    pub gated_out: usize,
    pub ffn: usize,
    pub logits: usize,
    pub position_ids: usize,
    pub moe_scores: usize,
    pub normed_seq: usize,
    pub moe_expert_ids: usize,
    pub moe_expert_weights: usize,
    pub moe_expert_gate: usize,
    pub moe_expert_up: usize,
    pub moe_expert_act: usize,
    pub moe_expert_out: usize,
    pub moe_latent: usize,
    pub mamba2_in_proj: usize,
    pub mamba2_conv_out: usize,
    pub mamba2_ssm_out: usize,
    pub argmax_result: usize,
    pub prefill_moe_normed: usize,
    pub prefill_moe_expert_input: usize,
    pub prefill_moe_gate_out: usize,
    pub prefill_moe_up_out: usize,
    pub prefill_moe_act_out: usize,
    pub prefill_moe_down_out: usize,
    pub prefill_moe_ffn_out: usize,
    pub prefill_moe_residual: usize,
    pub prefill_moe_ids: usize,
    pub prefill_moe_weights: usize,
    pub prefill_moe_token_indices: usize,
    pub prefill_moe_token_weights: usize,
}

pub open spec fn latent(c: &ModelConfig) -> usize {
    match c.moe_latent_size {
        Some(l) => l,
        None => c.hidden_size,
    }
}

/// Sizes of the recurrent scratch: input projection, convolution and state output.
pub open spec fn mamba_scratch(c: &ModelConfig) -> (nat, nat, nat) {
    match c.recurrent_kind {
        RecurrentLayerKind::Mamba2 { num_heads, head_dim, conv_dim, .. } => (
            num_heads as nat * head_dim as nat + conv_dim as nat + num_heads as nat,
            conv_dim as nat,
            num_heads as nat * head_dim as nat,
        ),
        _ => (1, 1, 1),
    }
}

/// One slot per attention layer, and at least one.
pub open spec fn seq_slots(c: &ModelConfig) -> nat {
    let n = config::count_layers(c.layers@, LayerType::Attention);
    if n == 0 {
        1
    } else {
        n
    }
}

/// All sizes are addressable.
pub open spec fn activations_fit(c: &ModelConfig) -> bool {
    &&& state::fused_width(c) <= usize::MAX
    &&& c.linear_num_heads as nat * c.linear_key_head_dim as nat <= usize::MAX
    &&& c.linear_num_value_heads as nat * c.linear_value_head_dim as nat <= usize::MAX
    &&& c.num_q_heads as nat * c.head_dim as nat * 2 <= usize::MAX
    &&& c.num_kv_heads as nat * c.head_dim as nat <= usize::MAX
    &&& mamba_scratch(c).0 <= usize::MAX
    &&& CHUNK_TOKENS * latent(c) <= usize::MAX
    &&& CHUNK_TOKENS * c.hidden_size <= usize::MAX
    &&& CHUNK_TOKENS * largest_or_one(c.layers@, ExpertMeasure::Inter) <= usize::MAX
    &&& CHUNK_TOKENS * largest_or_one(c.layers@, ExpertMeasure::Active) <= usize::MAX
}

/// What each buffer holds.
pub open spec fn activations_of(c: &ModelConfig) -> ActivationSizes {
    let keys = (c.linear_num_heads as nat * c.linear_key_head_dim as nat) as usize;
    let vals = (c.linear_num_value_heads as nat * c.linear_value_head_dim as nat) as usize;
    let heads = c.linear_num_value_heads;
    let q = c.num_q_heads as nat * c.head_dim as nat;
    let kv = (c.num_kv_heads as nat * c.head_dim as nat) as usize;
    let widest = largest_or_one(c.layers@, ExpertMeasure::Widest);
    let active = largest_or_one(c.layers@, ExpertMeasure::Active);
    let inter = (CHUNK_TOKENS * largest_or_one(c.layers@, ExpertMeasure::Inter)) as usize;
    let batch = (CHUNK_TOKENS * c.hidden_size) as usize;
    let batch_latent = (CHUNK_TOKENS * latent(c)) as usize;
    let batch_active = (CHUNK_TOKENS * active) as usize;
    ActivationSizes {
        hidden: c.hidden_size,
        qkv: state::fused_width(c) as usize,
        q_gdn: keys,
        k_gdn: keys,
        v_gdn: vals,
        a_proj: heads,
        b_proj: heads,
        z_proj: vals,
        gate_gdn: heads,
        recurrent_out: vals,
        normed_gated: vals,
        q_gate_attn: (q * if c.has_output_gate {
            2nat
        } else {
            1nat
        }) as usize,
        q_attn: q as usize,
        gate_attn: q as usize,
        k_attn: kv,
        v_attn: kv,
        attn_out: q as usize,
        gated_out: q as usize,
        ffn: c.intermediate_size,
        logits: c.vocab_size,
        position_ids: 3,
        moe_scores: largest_or_one(c.layers@, ExpertMeasure::Experts),
        normed_seq: seq_slots(c) as usize,
        moe_expert_ids: active,
        moe_expert_weights: active,
        moe_expert_gate: widest,
        moe_expert_up: widest,
        moe_expert_act: widest,
        moe_expert_out: c.hidden_size,
        moe_latent: latent(c),
        mamba2_in_proj: mamba_scratch(c).0 as usize,
        mamba2_conv_out: mamba_scratch(c).1 as usize,
        mamba2_ssm_out: mamba_scratch(c).2 as usize,
        argmax_result: 1,
        prefill_moe_normed: batch_latent,
        prefill_moe_expert_input: batch_latent,
        prefill_moe_gate_out: inter,
        prefill_moe_up_out: inter,
        prefill_moe_act_out: inter,
        prefill_moe_down_out: batch,
        prefill_moe_ffn_out: batch,
        prefill_moe_residual: batch,
        prefill_moe_ids: batch_active,
        prefill_moe_weights: batch_active,
        prefill_moe_token_indices: CHUNK_TOKENS,
        prefill_moe_token_weights: CHUNK_TOKENS,
    }
}

/// Sizes every activation buffer.
pub fn activation_sizes(c: &ModelConfig) -> (r: ActivationSizes)
    requires
        activations_fit(c),
    ensures
        r == activations_of(c),
{
    let keys: usize = c.linear_num_heads * c.linear_key_head_dim;
    let vals: usize = c.linear_num_value_heads * c.linear_value_head_dim;
    let heads: usize = c.linear_num_value_heads;
    let q: usize = c.num_q_heads * c.head_dim;
    let kv: usize = c.num_kv_heads * c.head_dim;
    let widest: usize = largest_measure(&c.layers, ExpertMeasure::Widest);
    let active: usize = largest_measure(&c.layers, ExpertMeasure::Active);
    let inter: usize = CHUNK_TOKENS * largest_measure(&c.layers, ExpertMeasure::Inter);
    let batch: usize = CHUNK_TOKENS * c.hidden_size;
    let latent_size: usize = match c.moe_latent_size {
        Some(l) => l,
        None => c.hidden_size,
    };
    let batch_latent: usize = CHUNK_TOKENS * latent_size;
    let batch_active: usize = CHUNK_TOKENS * active;
    let attention: usize = count_layers_before(&c.layers, c.layers.len(), LayerType::Attention);
    assert(c.layers@.take(c.layers@.len() as int) =~= c.layers@);
    let normed_seq: usize = if attention == 0 {
        1
    } else {
        attention
    };
    let (in_proj, conv_out, ssm_out) = match c.recurrent_kind {
        RecurrentLayerKind::Mamba2 { num_heads, head_dim, conv_dim, .. } => (
            num_heads * head_dim + conv_dim + num_heads,
            conv_dim,
            num_heads * head_dim,
        ),
        _ => (1, 1, 1),
    };
    ActivationSizes {
        hidden: c.hidden_size,
        qkv: keys * 2 + vals,
        q_gdn: keys,
        k_gdn: keys,
        v_gdn: vals,
        a_proj: heads,
        b_proj: heads,
        z_proj: vals,
        gate_gdn: heads,
        recurrent_out: vals,
        normed_gated: vals,
        q_gate_attn: if c.has_output_gate {
            q * 2
        } else {
            q
        },
        q_attn: q,
        gate_attn: q,
        k_attn: kv,
        v_attn: kv,
        attn_out: q,
        gated_out: q,
        ffn: c.intermediate_size,
        logits: c.vocab_size,
        position_ids: 3,
        moe_scores: largest_measure(&c.layers, ExpertMeasure::Experts),
        normed_seq,
        moe_expert_ids: active,
        moe_expert_weights: active,
        moe_expert_gate: widest,
        moe_expert_up: widest,
        moe_expert_act: widest,
        moe_expert_out: c.hidden_size,
        moe_latent: latent_size,
        mamba2_in_proj: in_proj,
        mamba2_conv_out: conv_out,
        mamba2_ssm_out: ssm_out,
        argmax_result: 1,
        prefill_moe_normed: batch_latent,
        prefill_moe_expert_input: batch_latent,
        prefill_moe_gate_out: inter,
        prefill_moe_up_out: inter,
        prefill_moe_act_out: inter,
        prefill_moe_down_out: batch,
        prefill_moe_ffn_out: batch,
        prefill_moe_residual: batch,
        prefill_moe_ids: batch_active,
        prefill_moe_weights: batch_active,
        prefill_moe_token_indices: CHUNK_TOKENS,
        prefill_moe_token_weights: CHUNK_TOKENS,
    }
}

/// How many recurrent states of each kind a model keeps.
#[derive(Clone, Copy, Debug, PartialEq, Eq, Structural)]
pub struct StateCounts {
    pub gdn: usize,
    pub mamba2: usize,
}

/// The recurrent states a model keeps; those of state-space layers only where the
/// model describes such layers.
pub open spec fn states_of(c: &ModelConfig) -> StateCounts {
    let layers = c.layers@.take(c.num_layers as int);
    StateCounts {
        gdn: config::count_layers(layers, LayerType::Gdn) as usize,
        mamba2: if c.recurrent_kind is Mamba2 {
            config::count_layers(layers, LayerType::Mamba2) as usize
        } else {
            0
        },
    }
}

/// Counts the recurrent states.
pub fn state_counts(c: &ModelConfig) -> (r: StateCounts)
    requires
        c.num_layers <= c.layers@.len(),
    ensures
        r == states_of(c),
{
    let gdn: usize = count_layers_before(&c.layers, c.num_layers, LayerType::Gdn);
    let mamba2: usize = match c.recurrent_kind {
        RecurrentLayerKind::Mamba2 { .. } => count_layers_before(
            &c.layers,
            c.num_layers,
            LayerType::Mamba2,
        ),
        _ => 0,
    };
    StateCounts { gdn, mamba2 }
}

// ---- laws ----

/// The largest measure is that of some layer with experts; without one there is none.
pub proof fn law_largest_reached(layers: Seq<LayerConfig>, m: ExpertMeasure)
    ensures
        largest(layers, m) matches Some(x) ==> exists|i: int|
            0 <= i < layers.len() && measure(m, (#[trigger] layers[i]).ffn_type) == Some(x),
        largest(layers, m) is None <==> forall|i: int|
            0 <= i < layers.len() ==> !((#[trigger] layers[i]).ffn_type is MoE),
    decreases layers.len(),
{
    if layers.len() > 0 {
        let rest = layers.drop_last();
        let last = layers.len() - 1;
        law_largest_reached(rest, m);
        assert(layers[last] == layers.last());
        assert forall|i: int| 0 <= i < last implies #[trigger] rest[i] == layers[i] by {}
        match largest(layers, m) {
            Some(x) => {
                if measure(m, layers[last].ffn_type) != Some(x) {
                    let k = choose|k: int|
                        0 <= k < rest.len() && measure(m, (#[trigger] rest[k]).ffn_type) == Some(x);
                    assert(measure(m, layers[k].ffn_type) == Some(x));
                }
                if layers[last].ffn_type !is MoE {
                    let k = choose|k: int| 0 <= k < rest.len() && (#[trigger] rest[k]).ffn_type is MoE;
                    assert(layers[k].ffn_type is MoE);
                }
            },
            None => {
                assert forall|i: int| 0 <= i < layers.len() implies !((
                #[trigger] layers[i]).ffn_type is MoE) by {
                    if i < last {
                        assert(!(rest[i].ffn_type is MoE));
                    }
                }
            },
        }
    }
}

/// What an expert layer scores, chooses and computes for a token has room, and so have
/// the rows of every token of a batch.
pub proof fn law_experts_fit_buffers(c: &ModelConfig, i: int, t: int)
    requires
        activations_fit(c),
        0 <= i < c.layers@.len(),
        0 <= t < CHUNK_TOKENS,
    ensures
        ({
            let s = activations_of(c);
            c.layers@[i].ffn_type matches FfnType::MoE {
                num_experts,
                num_active,
                expert_intermediate_size,
                shared_intermediate_size,
                ..
            } ==> {
                &&& num_experts <= s.moe_scores
                &&& num_active <= s.moe_expert_ids
                &&& num_active <= s.moe_expert_weights
                &&& expert_intermediate_size <= s.moe_expert_gate
                &&& expert_intermediate_size <= s.moe_expert_up
                &&& expert_intermediate_size <= s.moe_expert_act
                &&& shared_intermediate_size <= s.moe_expert_gate
                &&& shared_intermediate_size <= s.moe_expert_up
                &&& shared_intermediate_size <= s.moe_expert_act
                &&& t * num_active + num_active <= s.prefill_moe_ids
                &&& t * num_active + num_active <= s.prefill_moe_weights
                &&& t * expert_intermediate_size + expert_intermediate_size
                    <= s.prefill_moe_gate_out
                &&& t * expert_intermediate_size + expert_intermediate_size <= s.prefill_moe_up_out
                &&& t * expert_intermediate_size + expert_intermediate_size
                    <= s.prefill_moe_act_out
                &&& t * c.hidden_size + c.hidden_size <= s.prefill_moe_down_out
                &&& t * c.hidden_size + c.hidden_size <= s.prefill_moe_ffn_out
                &&& t * c.hidden_size + c.hidden_size <= s.prefill_moe_residual
                &&& t * latent(c) + latent(c) <= s.prefill_moe_normed
                &&& t * latent(c) + latent(c) <= s.prefill_moe_expert_input
                &&& t < s.prefill_moe_token_indices
                &&& t < s.prefill_moe_token_weights
                &&& c.hidden_size <= s.moe_expert_out
                &&& latent(c) <= s.moe_latent
            }
        }),
{
    if c.layers@[i].ffn_type is MoE {
        law_largest_bounds_all(c.layers@, ExpertMeasure::Experts, i);
        law_largest_bounds_all(c.layers@, ExpertMeasure::Active, i);
        law_largest_bounds_all(c.layers@, ExpertMeasure::Inter, i);
        law_largest_bounds_all(c.layers@, ExpertMeasure::Widest, i);
        let active = measure(ExpertMeasure::Active, c.layers@[i].ffn_type)->0;
        let inter = measure(ExpertMeasure::Inter, c.layers@[i].ffn_type)->0;
        lemma_rows_fit(t, active as int, largest_or_one(c.layers@, ExpertMeasure::Active) as int);
        lemma_rows_fit(t, inter as int, largest_or_one(c.layers@, ExpertMeasure::Inter) as int);
        lemma_rows_fit(t, c.hidden_size as int, c.hidden_size as int);
        lemma_rows_fit(t, latent(c) as int, latent(c) as int);
    }
}

proof fn lemma_rows_fit(t: int, width: int, widest: int)
    requires
        0 <= t < CHUNK_TOKENS,
        0 <= width <= widest,
    ensures
        t * width + width <= CHUNK_TOKENS * widest,
{
    let n = CHUNK_TOKENS as int;
    assert(t * width + width <= n * widest) by (nonlinear_arith)
        requires
            0 <= t,
            t + 1 <= n,
            0 <= width <= widest,
    ;
}

/// The input projection of a state-space layer holds the gates, the channels of the
/// convolution and a time step per head; its output is as wide as the gates.
pub proof fn law_mamba_scratch_split(c: &ModelConfig)
    requires
        activations_fit(c),
    ensures
        ({
            let s = activations_of(c);
            match c.recurrent_kind {
                RecurrentLayerKind::Mamba2 { num_heads, head_dim, conv_dim, .. } => {
                    &&& s.mamba2_in_proj == s.mamba2_ssm_out + s.mamba2_conv_out + num_heads
                    &&& s.mamba2_conv_out == conv_dim
                    &&& num_heads > 0 ==> s.mamba2_ssm_out / num_heads == head_dim
                },
                _ => s.mamba2_in_proj == 1 && s.mamba2_conv_out == 1 && s.mamba2_ssm_out == 1,
            }
        }),
{
    match c.recurrent_kind {
        RecurrentLayerKind::Mamba2 { num_heads, head_dim, .. } => {
            let (n, d) = (num_heads as int, head_dim as int);
            if n > 0 {
                assert(n * d / n == d) by (nonlinear_arith)
                    requires
                        n > 0,
                ;
            }
        },
        _ => {},
    }
}

/// Every linear-attention layer has a state of its own, and every state belongs to one:
/// the states are numbered as the layers follow.
pub proof fn law_states_numbered(c: &ModelConfig, i: int, j: int)
    requires
        c.num_layers <= c.layers@.len(),
        c.layers@.len() <= usize::MAX,
        0 <= i < j < c.num_layers,
        c.layers@[i].layer_type == LayerType::Gdn,
        c.layers@[j].layer_type == LayerType::Gdn,
    ensures
        config::count_layers(c.layers@.take(i), LayerType::Gdn) < config::count_layers(
            c.layers@.take(j),
            LayerType::Gdn,
        ) < states_of(c).gdn,
        forall|k: nat|
            k < states_of(c).gdn ==> {
                let l = #[trigger] config::nth_layer(
                    c.layers@.take(c.num_layers as int),
                    LayerType::Gdn,
                    k,
                );
                0 <= l < c.num_layers && c.layers@[l].layer_type == LayerType::Gdn
            },
{
    let all = c.layers@.take(c.num_layers as int);
    config::lemma_count_layers_bound(all, LayerType::Gdn);
    assert(all.take(j) =~= c.layers@.take(j));
    assert(all.take(j).take(i) =~= c.layers@.take(i));
    config::lemma_nth_layer_unique(all, LayerType::Gdn, config::count_layers(all.take(j), LayerType::Gdn), j);
    config::lemma_nth_layer_unique(
        all.take(j),
        LayerType::Gdn,
        config::count_layers(all.take(j).take(i), LayerType::Gdn),
        i,
    );
    assert forall|k: nat| k < states_of(c).gdn implies {
        let l = #[trigger] config::nth_layer(all, LayerType::Gdn, k);
        0 <= l < c.num_layers && c.layers@[l].layer_type == LayerType::Gdn
    } by {
        config::lemma_nth_layer(all, LayerType::Gdn, k);
    }
}

} // verus!
