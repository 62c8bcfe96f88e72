//! The tensors each kind of layer wants, in the order they are read.

use vstd::prelude::*;
use crate::config::{FfnType, LayerType, ModelConfig, RecurrentLayerKind};
use crate::model::load::layer::{LayerName, TensorKind, Want};

verus! {

/// A tensor that must be there.
pub open spec fn need(name: LayerName, kind: TensorKind) -> Want {
    Want { name, other: None, kind, optional: false }
}

/// A tensor that must be there under either name.
pub open spec fn either(name: LayerName, other: LayerName, kind: TensorKind) -> Want {
    Want { name, other: Some(other), kind, optional: false }
}

/// A tensor that may be absent.
pub open spec fn maybe(name: LayerName, kind: TensorKind) -> Want {
    Want { name, other: None, kind, optional: true }
}

fn need_exec(name: LayerName, kind: TensorKind) -> (r: Want)
    ensures
        r == need(name, kind),
{
    Want { name, other: None, kind, optional: false }
}

fn either_exec(name: LayerName, other: LayerName, kind: TensorKind) -> (r: Want)
    ensures
        r == either(name, other, kind),
{
    Want { name, other: Some(other), kind, optional: false }
}

fn maybe_exec(name: LayerName, kind: TensorKind) -> (r: Want)
    ensures
        r == maybe(name, kind),
{
    Want { name, other: None, kind, optional: true }
}

// ---- sizes ----

/// Rows of the fused query, key and value projection of a linear-attention layer.
pub open spec fn qkv_rows(c: &ModelConfig) -> nat {
    c.linear_num_heads as nat * c.linear_key_head_dim as nat + c.linear_num_heads as nat
        * c.linear_key_head_dim as nat + c.linear_num_value_heads as nat
        * c.linear_value_head_dim as nat
}

pub open spec fn value_rows(c: &ModelConfig) -> nat {
    c.linear_num_value_heads as nat * c.linear_value_head_dim as nat
}

/// Queries carry a gate or not.
pub open spec fn q_mult(c: &ModelConfig) -> nat {
    if c.has_output_gate {
        2
    } else {
        1
    }
}

/// All sizes of a layer's tensors are addressable.
pub open spec fn sizes_fit(c: &ModelConfig) -> bool {
    &&& c.num_q_heads as nat * c.head_dim as nat * 2 <= usize::MAX
    &&& c.num_kv_heads as nat * c.head_dim as nat <= usize::MAX
    &&& c.linear_num_heads as nat * c.linear_key_head_dim as nat <= usize::MAX
    &&& value_rows(c) <= usize::MAX
    &&& qkv_rows(c) <= usize::MAX
    &&& qkv_rows(c) * c.linear_conv_kernel_dim as nat <= usize::MAX
    &&& c.recurrent_kind matches RecurrentLayerKind::Mamba2 {
        num_heads,
        head_dim,
        conv_kernel,
        conv_dim,
        ..
    } ==> {
        &&& num_heads as nat * head_dim as nat + conv_dim + num_heads <= usize::MAX
        &&& conv_dim as nat * conv_kernel as nat <= usize::MAX
    }
}

// ---- layers ----

pub open spec fn mamba2_wants(
    hidden: usize,
    num_heads: usize,
    head_dim: usize,
    conv_kernel: usize,
    conv_dim: usize,
) -> Seq<Want> {
    let inter = (num_heads as nat * head_dim as nat) as usize;
    seq![
        either(LayerName::Norm, LayerName::InputLayernorm, TensorKind::Half { len: hidden }),
        need(
            LayerName::MixerInProj,
            TensorKind::Matrix {
                out_dim: (num_heads as nat * head_dim as nat + conv_dim + num_heads) as usize,
                in_dim: hidden,
            },
        ),
        need(
            LayerName::MixerConvWeight,
            TensorKind::Half { len: (conv_dim as nat * conv_kernel as nat) as usize },
        ),
        need(LayerName::MixerConvBias, TensorKind::Full { len: conv_dim }),
        need(LayerName::MixerDtBias, TensorKind::Full { len: num_heads }),
        need(LayerName::MixerALog, TensorKind::Full { len: num_heads }),
        need(LayerName::MixerD, TensorKind::Full { len: num_heads }),
        need(LayerName::MixerNorm, TensorKind::Full { len: inter }),
        need(LayerName::MixerOutProj, TensorKind::Matrix { out_dim: hidden, in_dim: inter }),
    ]
}

/// The dense feed-forward matrices.
pub open spec fn ffn_wants(c: &ModelConfig) -> Seq<Want> {
    seq![
        need(
            LayerName::MlpGate,
            TensorKind::Matrix { out_dim: c.intermediate_size, in_dim: c.hidden_size },
        ),
        need(
            LayerName::MlpUp,
            TensorKind::Matrix { out_dim: c.intermediate_size, in_dim: c.hidden_size },
        ),
        need(
            LayerName::MlpDown,
            TensorKind::Matrix { out_dim: c.hidden_size, in_dim: c.intermediate_size },
        ),
    ]
}

pub open spec fn attention_wants(c: &ModelConfig, ffn: FfnType) -> Seq<Want> {
    let h = c.hidden_size;
    let q = c.num_q_heads as nat * c.head_dim as nat;
    let kv = (c.num_kv_heads as nat * c.head_dim as nat) as usize;
    let projections = seq![
        either(LayerName::InputLayernorm, LayerName::Norm, TensorKind::Half { len: h }),
        either(
            LayerName::AttnQ,
            LayerName::MixerQ,
            TensorKind::Matrix { out_dim: (q * q_mult(c)) as usize, in_dim: h },
        ),
        either(
            LayerName::AttnK,
            LayerName::MixerK,
            TensorKind::Matrix { out_dim: kv, in_dim: h },
        ),
        either(
            LayerName::AttnV,
            LayerName::MixerV,
            TensorKind::Matrix { out_dim: kv, in_dim: h },
        ),
        either(
            LayerName::AttnO,
            LayerName::MixerO,
            TensorKind::Matrix { out_dim: h, in_dim: q as usize },
        ),
    ];
    let norms = if c.has_qk_norm {
        seq![
            need(LayerName::QNorm, TensorKind::HalfMeasured),
            need(LayerName::KNorm, TensorKind::HalfMeasured),
        ]
    } else {
        Seq::empty()
    };
    let post = seq![maybe(LayerName::PostAttentionLayernorm, TensorKind::Half { len: h })];
    let ffn_part = if ffn == FfnType::Dense {
        ffn_wants(c)
    } else {
        Seq::empty()
    };
    projections + norms + post + ffn_part
}

pub open spec fn linear_wants(c: &ModelConfig, ffn: FfnType) -> Seq<Want> {
    let h = c.hidden_size;
    let z = value_rows(c) as usize;
    let heads = c.linear_num_value_heads;
    let mixer = seq![
        need(
            LayerName::LinearConv,
            TensorKind::Conv {
                elements: (qkv_rows(c) * c.linear_conv_kernel_dim as nat) as usize,
            },
        ),
        need(LayerName::InputLayernorm, TensorKind::Half { len: h }),
        need(
            LayerName::LinearQkv,
            TensorKind::Matrix { out_dim: qkv_rows(c) as usize, in_dim: h },
        ),
        need(LayerName::LinearA, TensorKind::Matrix { out_dim: heads, in_dim: h }),
        need(LayerName::LinearB, TensorKind::Matrix { out_dim: heads, in_dim: h }),
        need(LayerName::LinearZ, TensorKind::Matrix { out_dim: z, in_dim: h }),
        need(LayerName::LinearALog, TensorKind::Full { len: heads }),
        need(LayerName::LinearDtBias, TensorKind::Half { len: heads }),
        need(LayerName::LinearNorm, TensorKind::Full { len: c.linear_value_head_dim }),
        need(LayerName::LinearOut, TensorKind::Matrix { out_dim: h, in_dim: z }),
        need(LayerName::PostAttentionLayernorm, TensorKind::Half { len: h }),
    ];
    mixer + if ffn.is_moe() {
        Seq::empty()
    } else {
        ffn_wants(c)
    }
}

/// The tensors of a layer.
pub open spec fn layer_wants(c: &ModelConfig, layer_type: LayerType, ffn: FfnType) -> Seq<Want> {
    match layer_type {
        LayerType::Mamba2 => match c.recurrent_kind {
            RecurrentLayerKind::Mamba2 {
                num_heads,
                head_dim,
                conv_kernel,
                conv_dim,
                ..
            } => mamba2_wants(c.hidden_size, num_heads, head_dim, conv_kernel, conv_dim),
            _ => Seq::empty(),
        },
        LayerType::MoeFfn => seq![
            either(
                LayerName::Norm,
                LayerName::InputLayernorm,
                TensorKind::Half { len: c.hidden_size },
            ),
        ],
        LayerType::Attention => attention_wants(c, ffn),
        _ => linear_wants(c, ffn),
    }
}

fn push_ffn(c: &ModelConfig, v: &mut Vec<Want>)
    ensures
        final(v)@ == old(v)@ + ffn_wants(c),
{
    let (i, h) = (c.intermediate_size, c.hidden_size);
    v.push(need_exec(LayerName::MlpGate, TensorKind::Matrix { out_dim: i, in_dim: h }));
    v.push(need_exec(LayerName::MlpUp, TensorKind::Matrix { out_dim: i, in_dim: h }));
    v.push(need_exec(LayerName::MlpDown, TensorKind::Matrix { out_dim: h, in_dim: i }));
    assert(v@ =~= old(v)@ + ffn_wants(c));
}

fn plan_mamba2(
    hidden: usize,
    num_heads: usize,
    head_dim: usize,
    conv_kernel: usize,
    conv_dim: usize,
) -> (r: Vec<Want>)
    requires
        num_heads as nat * head_dim as nat + conv_dim + num_heads <= usize::MAX,
        conv_dim as nat * conv_kernel as nat <= usize::MAX,
    ensures
        r@ == mamba2_wants(hidden, num_heads, head_dim, conv_kernel, conv_dim),
{
    let inter: usize = num_heads * head_dim;
    let mut r: Vec<Want> = Vec::new();
    r.push(
        either_exec(LayerName::Norm, LayerName::InputLayernorm, TensorKind::Half { len: hidden }),
    );
    r.push(
        need_exec(
            LayerName::MixerInProj,
            TensorKind::Matrix { out_dim: inter + conv_dim + num_heads, in_dim: hidden },
        ),
    );
    r.push(
        need_exec(LayerName::MixerConvWeight, TensorKind::Half { len: conv_dim * conv_kernel }),
    );
    r.push(need_exec(LayerName::MixerConvBias, TensorKind::Full { len: conv_dim }));
    r.push(need_exec(LayerName::MixerDtBias, TensorKind::Full { len: num_heads }));
    r.push(need_exec(LayerName::MixerALog, TensorKind::Full { len: num_heads }));
    r.push(need_exec(LayerName::MixerD, TensorKind::Full { len: num_heads }));
    r.push(need_exec(LayerName::MixerNorm, TensorKind::Full { len: inter }));
    r.push(
        need_exec(LayerName::MixerOutProj, TensorKind::Matrix { out_dim: hidden, in_dim: inter }),
    );
    assert(r@ =~= mamba2_wants(hidden, num_heads, head_dim, conv_kernel, conv_dim));
    r
}

fn plan_attention(c: &ModelConfig, ffn: FfnType) -> (r: Vec<Want>)
    requires
        sizes_fit(c),
    ensures
        r@ == attention_wants(c, ffn),
{
    let h: usize = c.hidden_size;
    let q: usize = c.num_q_heads * c.head_dim;
    let kv: usize = c.num_kv_heads * c.head_dim;
    let gated: usize = if c.has_output_gate {
        q * 2
    } else {
        q
    };
    let mut r: Vec<Want> = Vec::new();
    r.push(either_exec(LayerName::InputLayernorm, LayerName::Norm, TensorKind::Half { len: h }));
    r.push(
        either_exec(
            LayerName::AttnQ,
            LayerName::MixerQ,
            TensorKind::Matrix { out_dim: gated, in_dim: h },
        ),
    );
    r.push(
        either_exec(
            LayerName::AttnK,
            LayerName::MixerK,
            TensorKind::Matrix { out_dim: kv, in_dim: h },
        ),
    );
    r.push(
        either_exec(
            LayerName::AttnV,
            LayerName::MixerV,
            TensorKind::Matrix { out_dim: kv, in_dim: h },
        ),
    );
    r.push(
        either_exec(
            LayerName::AttnO,
            LayerName::MixerO,
            TensorKind::Matrix { out_dim: h, in_dim: q },
        ),
    );
    if c.has_qk_norm {
        r.push(need_exec(LayerName::QNorm, TensorKind::HalfMeasured));
        r.push(need_exec(LayerName::KNorm, TensorKind::HalfMeasured));
    }
    r.push(maybe_exec(LayerName::PostAttentionLayernorm, TensorKind::Half { len: h }));
    if ffn == FfnType::Dense {
        push_ffn(c, &mut r);
    }
    assert(r@ =~= attention_wants(c, ffn));
    r
}

fn plan_linear(c: &ModelConfig, ffn: FfnType) -> (r: Vec<Want>)
    requires
        sizes_fit(c),
    ensures
        r@ == linear_wants(c, ffn),
{
    let h: usize = c.hidden_size;
    let keys: usize = c.linear_num_heads * c.linear_key_head_dim;
    let z: usize = c.linear_num_value_heads * c.linear_value_head_dim;
    let heads: usize = c.linear_num_value_heads;
    let qkv: usize = keys + keys + z;
    let elements: usize = qkv * c.linear_conv_kernel_dim;
    let mut r: Vec<Want> = Vec::new();
    r.push(need_exec(LayerName::LinearConv, TensorKind::Conv { elements }));
    r.push(need_exec(LayerName::InputLayernorm, TensorKind::Half { len: h }));
    r.push(need_exec(LayerName::LinearQkv, TensorKind::Matrix { out_dim: qkv, in_dim: h }));
    r.push(need_exec(LayerName::LinearA, TensorKind::Matrix { out_dim: heads, in_dim: h }));
    r.push(need_exec(LayerName::LinearB, TensorKind::Matrix { out_dim: heads, in_dim: h }));
    r.push(need_exec(LayerName::LinearZ, TensorKind::Matrix { out_dim: z, in_dim: h }));
    r.push(need_exec(LayerName::LinearALog, TensorKind::Full { len: heads }));
    r.push(need_exec(LayerName::LinearDtBias, TensorKind::Half { len: heads }));
    r.push(need_exec(LayerName::LinearNorm, TensorKind::Full { len: c.linear_value_head_dim }));
    r.push(need_exec(LayerName::LinearOut, TensorKind::Matrix { out_dim: h, in_dim: z }));
    r.push(need_exec(LayerName::PostAttentionLayernorm, TensorKind::Half { len: h }));
    if !ffn.moe() {
        push_ffn(c, &mut r);
    }
    assert(r@ =~= linear_wants(c, ffn));
    r
}

/// Lists the tensors of a layer.
pub fn plan_wants(c: &ModelConfig, layer_type: LayerType, ffn: FfnType) -> (r: Vec<Want>)
    requires
        sizes_fit(c),
        layer_type == LayerType::Mamba2 ==> c.recurrent_kind is Mamba2,
    ensures
        r@ == layer_wants(c, layer_type, ffn),
{
    match layer_type {
        LayerType::Mamba2 => match c.recurrent_kind {
            RecurrentLayerKind::Mamba2 { num_heads, head_dim, conv_kernel, conv_dim, .. } => {
                plan_mamba2(c.hidden_size, num_heads, head_dim, conv_kernel, conv_dim)
            },
            _ => Vec::new(),
        },
        LayerType::MoeFfn => {
            let mut r: Vec<Want> = Vec::new();
            r.push(
                either_exec(
                    LayerName::Norm,
                    LayerName::InputLayernorm,
                    TensorKind::Half { len: c.hidden_size },
                ),
            );
            assert(r@ =~= layer_wants(c, layer_type, ffn));
            r
        },
        LayerType::Attention => plan_attention(c, ffn),
        _ => plan_linear(c, ffn),
    }
}

// ---- convolution weights ----

/// A part of the convolution weights, in elements.
#[derive(Clone, Copy, Debug, PartialEq, Eq, Structural)]
pub struct ConvPart {
    pub offset: usize,
    pub elements: usize,
}

/// The weights of queries, keys and values, one after the other.
pub fn conv_parts(c: &ModelConfig) -> (r: (ConvPart, ConvPart, ConvPart))
    requires
        sizes_fit(c),
    ensures
        ({
            let k = c.linear_num_heads as nat * c.linear_key_head_dim as nat
                * c.linear_conv_kernel_dim as nat;
            let v = value_rows(c) * c.linear_conv_kernel_dim as nat;
            &&& r.0 == (ConvPart { offset: 0, elements: k as usize })
            &&& r.1 == (ConvPart { offset: k as usize, elements: k as usize })
            &&& r.2 == (ConvPart { offset: (2 * k) as usize, elements: v as usize })
            &&& 2 * k + v == qkv_rows(c) * c.linear_conv_kernel_dim as nat
        }),
        r.0.offset == 0,
        r.0.offset + r.0.elements == r.1.offset,
        r.1.offset + r.1.elements == r.2.offset,
        r.2.offset + r.2.elements == qkv_rows(c) * c.linear_conv_kernel_dim as nat,
{
    let keys: usize = c.linear_num_heads * c.linear_key_head_dim;
    let vals: usize = c.linear_num_value_heads * c.linear_value_head_dim;
    let ck: usize = c.linear_conv_kernel_dim;
    proof {
        let (a, b, n) = (keys as int, vals as int, ck as int);
        assert((a + a + b) * n == a * n + a * n + b * n) by (nonlinear_arith);
        assert(a * n >= 0 && b * n >= 0) by (nonlinear_arith)
            requires
                a >= 0,
                b >= 0,
                n >= 0,
        ;
    }
    let k: usize = keys * ck;
    let v: usize = vals * ck;
    (
        ConvPart { offset: 0, elements: k },
        ConvPart { offset: k, elements: k },
        ConvPart { offset: 2 * k, elements: v },
    )
}

} // verus!
