//! Plan of one gated-delta-net layer for one token.

use vstd::prelude::*;
use crate::config::ModelConfig;
use crate::model::state;
use crate::ops;
use crate::ops::{all_of, at, Buf, Loc, Op, Weight};

verus! {

/// Channels of the Q (and of the K) part of a convolution.
pub open spec fn key_channels(config: &ModelConfig) -> nat {
    config.linear_num_heads as nat * config.linear_key_head_dim as nat
}

/// Channels of the V part of a convolution.
pub open spec fn value_channels(config: &ModelConfig) -> nat {
    config.linear_num_value_heads as nat * config.linear_value_head_dim as nat
}

/// Width of the fused Q, K, V projection.
pub open spec fn qkv_width(config: &ModelConfig) -> nat {
    key_channels(config) * 2 + value_channels(config)
}

/// Convolution taps kept from one token to the next.
pub open spec fn taps(config: &ModelConfig) -> nat {
    (config.linear_conv_kernel_dim - 1) as nat
}

/// Elements of one layer's convolution state: Q, K and V parts in turn.
pub open spec fn conv_state_len(config: &ModelConfig) -> nat {
    qkv_width(config) * taps(config)
}

/// The layer has key heads and taps, and its buffers are addressable.
pub open spec fn gdn_fits(config: &ModelConfig) -> bool {
    &&& config.linear_num_heads > 0
    &&& config.linear_conv_kernel_dim > 0
    &&& qkv_width(config) <= usize::MAX
    &&& conv_state_len(config) <= usize::MAX
}

/// The whole layer. `gdn` counts recurrent layers.
pub open spec fn gdn_ops(config: &ModelConfig, layer: usize, gdn: usize) -> Seq<Op> {
    let hs = config.hidden_size;
    let nvh = config.linear_num_value_heads;
    let normed = ops::start(Buf::Normed);
    let keys = key_channels(config);
    let values = value_channels(config);
    let project = |out: Buf, w: Weight, width: nat|
        Op::Linear {
            out: ops::start(out),
            matrix: ops::whole(w),
            input: normed,
            out_dim: width as usize,
            in_dim: hs,
        };
    let conv = |from: nat, w: Weight, out: Buf, channels: nat|
        Op::CausalConv1d {
            state: Loc { buf: Buf::ConvState { gdn }, offset: (from * taps(config)) as usize },
            input: Loc { buf: Buf::Qkv, offset: from as usize },
            weight: w,
            out: ops::start(out),
            channels: channels as usize,
            kernel: config.linear_conv_kernel_dim,
        };
    seq![
        Op::RmsNorm {
            out: normed,
            input: ops::start(Buf::Hidden),
            weight: Weight::InputNorm { layer },
            dim: hs,
            eps: config.rms_norm_eps,
            one_plus_w: config.rms_norm_one_plus_w,
        },
        project(Buf::Qkv, Weight::GdnQkv { layer }, qkv_width(config)),
        project(Buf::AProj, Weight::GdnA { layer }, nvh as nat),
        project(Buf::BProj, Weight::GdnB { layer }, nvh as nat),
        project(Buf::ZProj, Weight::GdnZ { layer }, values),
        conv(0, Weight::GdnConvQ { layer }, Buf::QGdn, keys),
        conv(keys, Weight::GdnConvK { layer }, Buf::KGdn, keys),
        conv(keys + keys, Weight::GdnConvV { layer }, Buf::VGdn, values),
        Op::GdnGate { layer, heads: nvh },
        Op::GdnRecurrent {
            gdn,
            heads: nvh,
            key_dim: config.linear_key_head_dim,
            value_dim: config.linear_value_head_dim,
            group: nvh / config.linear_num_heads,
            states: config.linear_num_heads,
        },
        Op::RmsNormGated {
            layer,
            heads: nvh,
            dim: config.linear_value_head_dim,
            eps: config.rms_norm_eps,
        },
        Op::Linear {
            out: ops::start(Buf::OutProj),
            matrix: ops::whole(Weight::GdnOut { layer }),
            input: ops::start(Buf::NormedGated),
            out_dim: hs,
            in_dim: values as usize,
        },
        Op::Copy { dst: ops::start(Buf::Residual), src: ops::start(Buf::Hidden), len: hs },
        Op::ResidualAdd {
            out: ops::start(Buf::Hidden),
            a: ops::start(Buf::OutProj),
            b: ops::start(Buf::Residual),
            len: hs,
        },
    ]
}

/// The three convolutions tile the projection and the state: each part starts
/// where the one before ends, and the last ends with the buffer.
pub proof fn law_conv_parts_tile(config: &ModelConfig)
    requires
        config.linear_conv_kernel_dim > 0,
    ensures
        ({
            let keys = key_channels(config);
            let t = taps(config);
            &&& keys * t + keys * t == (keys + keys) * t
            &&& (keys + keys) * t + value_channels(config) * t == conv_state_len(config)
            &&& keys + keys + value_channels(config) == qkv_width(config)
        }),
{
    let keys = key_channels(config);
    let values = value_channels(config);
    let t = taps(config);
    assert(keys * t + keys * t == (keys + keys) * t) by (nonlinear_arith);
    assert((keys + keys) * t + values * t == (keys * 2 + values) * t) by (nonlinear_arith);
}

/// The recurrent step works on exactly the layer's recurrent state.
pub proof fn law_step_covers_state(config: &ModelConfig, layer: usize, gdn: usize)
    requires
        gdn_fits(config),
    ensures
        gdn_ops(config, layer, gdn)[9] matches Op::GdnRecurrent {
            key_dim,
            value_dim,
            states,
            ..
        } && states as nat * key_dim as nat * value_dim as nat == state::recurrent_elements(config),
{
    assert(gdn_ops(config, layer, gdn).len() == 14) by {
        law_conv_parts_tile(config);
    }
}

/// Plans one gated-delta-net layer.
pub fn gdn_forward(config: &ModelConfig, layer: usize, gdn: usize) -> (r: Vec<Op>)
    requires
        gdn_fits(config),
    ensures
        r@ == gdn_ops(config, layer, gdn),
{
    let hs: usize = config.hidden_size;
    let nvh: usize = config.linear_num_value_heads;
    let ck: usize = config.linear_conv_kernel_dim;
    let keys: usize = config.linear_num_heads * config.linear_key_head_dim;
    let values: usize = nvh * config.linear_value_head_dim;
    let qkv: usize = keys * 2 + values;
    proof {
        law_conv_parts_tile(config);
        let t = taps(config);
        assert(keys * t >= 0 && values * t >= 0) by (nonlinear_arith)
            requires
                keys >= 0,
                values >= 0,
                t >= 0,
        ;
    }
    let key_state: usize = keys * (ck - 1);
    let r: Vec<Op> = vec![
        Op::RmsNorm {
            out: at(Buf::Normed),
            input: at(Buf::Hidden),
            weight: Weight::InputNorm { layer },
            dim: hs,
            eps: config.rms_norm_eps,
            one_plus_w: config.rms_norm_one_plus_w,
        },
        normed_projection(Buf::Qkv, Weight::GdnQkv { layer }, qkv, hs),
        normed_projection(Buf::AProj, Weight::GdnA { layer }, nvh, hs),
        normed_projection(Buf::BProj, Weight::GdnB { layer }, nvh, hs),
        normed_projection(Buf::ZProj, Weight::GdnZ { layer }, values, hs),
        Op::CausalConv1d {
            state: Loc { buf: Buf::ConvState { gdn }, offset: 0 },
            input: Loc { buf: Buf::Qkv, offset: 0 },
            weight: Weight::GdnConvQ { layer },
            out: at(Buf::QGdn),
            channels: keys,
            kernel: ck,
        },
        Op::CausalConv1d {
            state: Loc { buf: Buf::ConvState { gdn }, offset: key_state },
            input: Loc { buf: Buf::Qkv, offset: keys },
            weight: Weight::GdnConvK { layer },
            out: at(Buf::KGdn),
            channels: keys,
            kernel: ck,
        },
        Op::CausalConv1d {
            state: Loc { buf: Buf::ConvState { gdn }, offset: key_state + key_state },
            input: Loc { buf: Buf::Qkv, offset: keys + keys },
            weight: Weight::GdnConvV { layer },
            out: at(Buf::VGdn),
            channels: values,
            kernel: ck,
        },
        Op::GdnGate { layer, heads: nvh },
        Op::GdnRecurrent {
            gdn,
            heads: nvh,
            key_dim: config.linear_key_head_dim,
            value_dim: config.linear_value_head_dim,
            group: nvh / config.linear_num_heads,
            states: config.linear_num_heads,
        },
        Op::RmsNormGated {
            layer,
            heads: nvh,
            dim: config.linear_value_head_dim,
            eps: config.rms_norm_eps,
        },
        Op::Linear {
            out: at(Buf::OutProj),
            matrix: all_of(Weight::GdnOut { layer }),
            input: at(Buf::NormedGated),
            out_dim: hs,
            in_dim: values,
        },
        Op::Copy { dst: at(Buf::Residual), src: at(Buf::Hidden), len: hs },
        Op::ResidualAdd {
            out: at(Buf::Hidden),
            a: at(Buf::OutProj),
            b: at(Buf::Residual),
            len: hs,
        },
    ];
    proof {
        assert(0 * taps(config) == 0);
        assert(r@ =~= gdn_ops(config, layer, gdn));
    }
    r
}

/// A projection of the normalised activations.
fn normed_projection(out: Buf, weight: Weight, width: usize, hs: usize) -> (r: Op)
    ensures
        r == (Op::Linear {
            out: ops::start(out),
            matrix: ops::whole(weight),
            input: ops::start(Buf::Normed),
            out_dim: width,
            in_dim: hs,
        }),
{
    Op::Linear {
        out: at(out),
        matrix: all_of(weight),
        input: at(Buf::Normed),
        out_dim: width,
        in_dim: hs,
    }
}

} // verus!
