//! What layers read is what is loaded, and what they write has room.

use vstd::prelude::*;
use crate::config::{FfnType, ModelConfig};
use crate::model::attention_forward;
use crate::model::attention_meaning;
use crate::model::forward;
use crate::model::gdn_meaning;
use crate::model::load::buffers;
use crate::model::load::buffers::ActivationSizes;
use crate::model::load::layer::{LayerName, TensorKind, Want};
use crate::model::load::wants;
use crate::model::state;
use crate::model::trace;
use crate::ops;
use crate::ops::{Buf, Op, Weight};

verus! {

// ---- reading ----

/// The tensor that a layer's weight is loaded from.
pub open spec fn tensor_of(w: Weight) -> Option<LayerName> {
    match w {
        Weight::InputNorm { .. } => Some(LayerName::InputLayernorm),
        Weight::PostNorm { .. } => Some(LayerName::PostAttentionLayernorm),
        Weight::QGate { .. } => Some(LayerName::AttnQ),
        Weight::K { .. } => Some(LayerName::AttnK),
        Weight::V { .. } => Some(LayerName::AttnV),
        Weight::O { .. } => Some(LayerName::AttnO),
        Weight::GdnQkv { .. } => Some(LayerName::LinearQkv),
        Weight::GdnA { .. } => Some(LayerName::LinearA),
        Weight::GdnB { .. } => Some(LayerName::LinearB),
        Weight::GdnZ { .. } => Some(LayerName::LinearZ),
        Weight::GdnALog { .. } => Some(LayerName::LinearALog),
        Weight::GdnDtBias { .. } => Some(LayerName::LinearDtBias),
        Weight::GdnOutputNorm { .. } => Some(LayerName::LinearNorm),
        Weight::GdnOut { .. } => Some(LayerName::LinearOut),
        Weight::FfnGate { .. } => Some(LayerName::MlpGate),
        Weight::FfnUp { .. } => Some(LayerName::MlpUp),
        Weight::FfnDown { .. } => Some(LayerName::MlpDown),
        _ => None,
    }
}

/// A weight is among the tensors that are wanted, in this shape.
pub open spec fn wanted(list: Seq<Want>, w: Weight, kind: TensorKind) -> bool {
    exists|k: int|
        0 <= k < list.len() && Some((#[trigger] list[k]).name) == tensor_of(w) && list[k].kind
            == kind
}

/// Whatever an operation reads of a layer's weights is wanted, in the shape in which it is
/// read.
pub open spec fn served(list: Seq<Want>, op: Op) -> bool {
    match op {
        Op::Linear { matrix, out_dim, in_dim, .. } => matrix == ops::whole(matrix.weight)
            && wanted(list, matrix.weight, TensorKind::Matrix { out_dim, in_dim }),
        Op::RmsNorm { weight, dim, .. } => wanted(list, weight, TensorKind::Half { len: dim }),
        Op::GdnGate { layer, heads } => {
            &&& wanted(list, Weight::GdnALog { layer }, TensorKind::Full { len: heads })
            &&& wanted(list, Weight::GdnDtBias { layer }, TensorKind::Half { len: heads })
        },
        Op::RmsNormGated { layer, dim, .. } => wanted(
            list,
            Weight::GdnOutputNorm { layer },
            TensorKind::Full { len: dim },
        ),
        _ => true,
    }
}

/// Attention is loaded with the projections it multiplies with.
pub proof fn law_attention_loaded(
    config: &ModelConfig,
    ffn: FfnType,
    layer: usize,
    attn: nat,
    position: u32,
    norm_len: usize,
    i: int,
)
    ensures
        ({
            let list = wants::attention_wants(config, ffn);
            let first = attention_forward::project_ops(config, layer);
            let last = attention_forward::attend_ops(config, layer, attn, position, norm_len);
            &&& 0 <= i < first.len() ==> served(list, first[i])
            &&& 0 <= i < last.len() ==> served(list, last[i])
        }),
{
    let list = wants::attention_wants(config, ffn);
    assert(list[0].name == LayerName::InputLayernorm);
    assert(list[1].name == LayerName::AttnQ);
    assert(list[2].name == LayerName::AttnK);
    assert(list[3].name == LayerName::AttnV);
    assert(list[4].name == LayerName::AttnO);
}

/// A gated-delta-net is loaded with what it reads. Its convolution tensor has a kernel for
/// every channel that is convolved.
pub proof fn law_gdn_loaded(config: &ModelConfig, ffn: FfnType, layer: usize, gdn: usize, i: int)
    requires
        forward::gdn_fits(config),
    ensures
        ({
            let list = wants::linear_wants(config, ffn);
            let plan = forward::gdn_ops(config, layer, gdn);
            &&& 0 <= i < plan.len() ==> served(list, plan[i])
            &&& exists|k: int|
                0 <= k < list.len() && (#[trigger] list[k]).name == LayerName::LinearConv
                    && list[k].kind == TensorKind::Conv {
                    elements: (gdn_meaning::channels(config)
                        * config.linear_conv_kernel_dim as nat) as usize,
                }
        }),
{
    let list = wants::linear_wants(config, ffn);
    assert(list[0].name == LayerName::LinearConv);
    assert(list[1].name == LayerName::InputLayernorm);
    assert(list[2].name == LayerName::LinearQkv);
    assert(list[3].name == LayerName::LinearA);
    assert(list[4].name == LayerName::LinearB);
    assert(list[5].name == LayerName::LinearZ);
    assert(list[6].name == LayerName::LinearALog);
    assert(list[7].name == LayerName::LinearDtBias);
    assert(list[8].name == LayerName::LinearNorm);
    assert(list[9].name == LayerName::LinearOut);
    let keys = config.linear_num_heads as nat * config.linear_key_head_dim as nat;
    assert(keys * 2 == keys + keys);
}

/// A dense part is loaded with what it reads, whatever mixer it stands behind.
pub proof fn law_dense_loaded(config: &ModelConfig, layer: usize, i: int)
    requires
        0 <= i < trace::dense_ops(config, layer).len(),
    ensures
        served(
            wants::attention_wants(config, FfnType::Dense),
            trace::dense_ops(config, layer)[i],
        ),
        served(wants::linear_wants(config, FfnType::Dense), trace::dense_ops(config, layer)[i]),
{
    let f = wants::ffn_wants(config);
    let a = wants::attention_wants(config, FfnType::Dense);
    let l = wants::linear_wants(config, FfnType::Dense);
    let (n, m) = (a.len() - 3, l.len() - 3);
    assert(a[n] == f[0] && a[n + 1] == f[1] && a[n + 2] == f[2]);
    assert(l[m] == f[0] && l[m + 1] == f[1] && l[m + 2] == f[2]);
    assert(a[n - 1].name == LayerName::PostAttentionLayernorm);
    assert(l[m - 1].name == LayerName::PostAttentionLayernorm);
}

// ---- writing ----

/// Elements of a buffer that mixers and dense parts use.
pub open spec fn room_of(s: ActivationSizes, b: Buf) -> Option<usize> {
    match b {
        Buf::Hidden => Some(s.hidden),
        Buf::Qkv => Some(s.qkv),
        Buf::QGdn => Some(s.q_gdn),
        Buf::KGdn => Some(s.k_gdn),
        Buf::VGdn => Some(s.v_gdn),
        Buf::AProj => Some(s.a_proj),
        Buf::BProj => Some(s.b_proj),
        Buf::ZProj => Some(s.z_proj),
        Buf::GateGdn => Some(s.gate_gdn),
        Buf::RecurrentOut => Some(s.recurrent_out),
        Buf::NormedGated => Some(s.normed_gated),
        Buf::QGateAttn => Some(s.q_gate_attn),
        Buf::QAttn => Some(s.q_attn),
        Buf::GateAttn => Some(s.gate_attn),
        Buf::KAttn => Some(s.k_attn),
        Buf::VAttn => Some(s.v_attn),
        Buf::AttnOut => Some(s.attn_out),
        Buf::GatedOut => Some(s.gated_out),
        Buf::FfnGate => Some(s.ffn),
        Buf::FfnUp => Some(s.ffn),
        Buf::FfnAct => Some(s.ffn),
        Buf::Logits => Some(s.logits),
        _ => None,
    }
}

proof fn lemma_widths(config: &ModelConfig)
    requires
        buffers::activations_fit(config),
    ensures
        ({
            let s = buffers::activations_of(config);
            let q = attention_meaning::q_width(config);
            &&& s.q_attn == q
            &&& s.q_gate_attn == if config.has_output_gate {
                2 * q
            } else {
                q
            }
            &&& s.k_attn == attention_meaning::kv_width(config)
            &&& s.q_gdn == gdn_meaning::key_width(config)
            &&& s.v_gdn == gdn_meaning::value_width(config)
            &&& s.qkv == gdn_meaning::channels(config)
        }),
{
    let q = config.num_q_heads as nat * config.head_dim as nat;
    assert(q <= q * 2);
    let keys = config.linear_num_heads as nat * config.linear_key_head_dim as nat;
    assert(keys * 2 == keys + keys);
}

/// Mixers write within their buffers.
pub proof fn law_mixers_stay_inside(config: &ModelConfig, number: usize, b: Buf, i: int)
    requires
        buffers::activations_fit(config),
        attention_meaning::writes(config, number as nat, b, i) || gdn_meaning::writes(
            config,
            number,
            b,
            i,
        ),
    ensures
        room_of(buffers::activations_of(config), b) matches Some(len) ==> 0 <= i < len,
{
    lemma_widths(config);
}

/// Buffers are no larger than what is written to them: the widest mixer fills them.
pub proof fn law_mixers_fill_buffers(config: &ModelConfig, number: usize, b: Buf)
    requires
        buffers::activations_fit(config),
        !(b is FfnGate || b is FfnUp || b is FfnAct || b is Logits),
        b is GateAttn ==> config.has_output_gate,
    ensures
        room_of(buffers::activations_of(config), b) matches Some(len) ==> (len > 0
            ==> attention_meaning::writes(config, number as nat, b, len - 1)
            || gdn_meaning::writes(config, number, b, len - 1)),
{
    lemma_widths(config);
}

/// A reset clears exactly the states that a recurrent layer keeps from token to token.
pub proof fn law_reset_clears_states(config: &ModelConfig, gdn: usize, i: int)
    requires
        state::lengths_fit(config),
    ensures
        ({
            let r = state::reset_lengths_of(config);
            &&& gdn_meaning::writes(config, gdn, Buf::ConvState { gdn }, i) <==> 0 <= i < r.conv
            &&& gdn_meaning::writes(config, gdn, Buf::RecurrentState { gdn }, i) <==> 0 <= i
                < r.recurrent
        }),
{
    let keys = config.linear_num_heads as nat * config.linear_key_head_dim as nat;
    assert(keys * 2 == keys + keys);
}

} // verus!
