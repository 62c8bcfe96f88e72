//! Plan of a traced decode step: every layer on its own, with checkpoints of the
//! hidden state in between.

use vstd::prelude::*;
use crate::config;
use crate::config::{count_layers_before, FfnType, LayerConfig, LayerType, ModelConfig};
use crate::ops;
use crate::ops::{all_of, at, Buf, Op, Weight};

verus! {

/// A point at which the trace records a buffer.
#[derive(Clone, Copy, Debug, PartialEq, Eq, Structural)]
pub enum Checkpoint {
    Embed,
    PostMixer { layer: usize },
    PostFfn { layer: usize },
    FinalHidden,
    FinalNorm,
    TopLogits,
}

/// One step of a traced decode.
#[derive(Clone, Copy, Debug, PartialEq, Eq, Structural)]
pub enum TraceStep {
    /// Appends the token to the paged sequence.
    AppendToken,
    Op(Op),
    /// Runs a mixer; the index counts mixers of the same kind.
    Attention { layer: usize, attn: usize },
    Gdn { layer: usize, gdn: usize },
    Mamba2 { layer: usize, index: usize },
    /// Runs the expert layer.
    Moe { layer: usize },
    /// Runs the dense feed-forward part as one fused kernel.
    FusedFfn { layer: usize },
    Record(Checkpoint),
    /// The model counts the token: its count becomes `position + 1`.
    StepDone { position: u32 },
}

/// A layer the traced decode can run: no convolution mixer, and a dense
/// feed-forward part only behind attention or a gated-delta-net.
pub open spec fn traceable(l: LayerConfig) -> bool {
    &&& l.layer_type != LayerType::LfmConv
    &&& l.ffn_type == FfnType::Dense ==> l.layer_type == LayerType::Attention || l.layer_type
        == LayerType::Gdn
}

/// A checkpoint, when tracing.
pub open spec fn record(tracing: bool, c: Checkpoint) -> Seq<TraceStep> {
    if tracing {
        seq![TraceStep::Record(c)]
    } else {
        Seq::empty()
    }
}

/// The mixer of layer `i`. A standalone expert layer has none.
pub open spec fn mixer_step(layers: Seq<LayerConfig>, i: int) -> Seq<TraceStep> {
    let before = layers.take(i);
    let index = config::count_layers(before, layers[i].layer_type) as usize;
    match layers[i].layer_type {
        LayerType::Attention => seq![TraceStep::Attention { layer: i as usize, attn: index }],
        LayerType::Gdn => seq![TraceStep::Gdn { layer: i as usize, gdn: index }],
        LayerType::Mamba2 => seq![TraceStep::Mamba2 { layer: i as usize, index }],
        LayerType::MoeFfn => Seq::empty(),
        LayerType::LfmConv => Seq::empty(),
    }
}

/// A dense feed-forward part, kernel by kernel.
pub open spec fn dense_ops(config: &ModelConfig, layer: usize) -> Seq<Op> {
    let hs = config.hidden_size;
    let inner = config.intermediate_size;
    seq![
        Op::Copy { dst: ops::start(Buf::Residual), src: ops::start(Buf::Hidden), len: hs },
        Op::RmsNorm {
            out: ops::start(Buf::Normed),
            input: ops::start(Buf::Hidden),
            weight: Weight::PostNorm { layer },
            dim: hs,
            eps: config.rms_norm_eps,
            one_plus_w: config.rms_norm_one_plus_w,
        },
        Op::Linear {
            out: ops::start(Buf::FfnGate),
            matrix: ops::whole(Weight::FfnGate { layer }),
            input: ops::start(Buf::Normed),
            out_dim: inner,
            in_dim: hs,
        },
        Op::Linear {
            out: ops::start(Buf::FfnUp),
            matrix: ops::whole(Weight::FfnUp { layer }),
            input: ops::start(Buf::Normed),
            out_dim: inner,
            in_dim: hs,
        },
        Op::SiluMul {
            out: ops::start(Buf::FfnAct),
            gate: ops::start(Buf::FfnGate),
            up: ops::start(Buf::FfnUp),
            len: inner,
        },
        Op::Linear {
            out: ops::start(Buf::FfnDown),
            matrix: ops::whole(Weight::FfnDown { layer }),
            input: ops::start(Buf::FfnAct),
            out_dim: hs,
            in_dim: inner,
        },
        Op::ResidualAdd {
            out: ops::start(Buf::Hidden),
            a: ops::start(Buf::FfnDown),
            b: ops::start(Buf::Residual),
            len: hs,
        },
    ]
}

/// The feed-forward part of layer `i`: experts, nothing, or dense; dense weights
/// that are all unquantized run fused.
pub open spec fn ffn_steps(config: &ModelConfig, i: int, all_bf16: bool) -> Seq<TraceStep> {
    match config.layers@[i].ffn_type {
        FfnType::MoE { .. } => seq![TraceStep::Moe { layer: i as usize }],
        FfnType::Absent => Seq::empty(),
        FfnType::Dense => if all_bf16 {
            seq![TraceStep::FusedFfn { layer: i as usize }]
        } else {
            dense_ops(config, i as usize).map_values(|o: Op| TraceStep::Op(o))
        },
    }
}

/// Layer `i`.
pub open spec fn layer_steps(
    config: &ModelConfig,
    i: int,
    all_bf16: bool,
    tracing: bool,
) -> Seq<TraceStep> {
    mixer_step(config.layers@, i) + record(tracing, Checkpoint::PostMixer { layer: i as usize })
        + ffn_steps(config, i, all_bf16) + record(
        tracing,
        Checkpoint::PostFfn { layer: i as usize },
    )
}

/// The first `count` layers.
pub open spec fn layers_steps(
    config: &ModelConfig,
    all_bf16: Seq<bool>,
    tracing: bool,
    count: nat,
) -> Seq<TraceStep>
    decreases count,
{
    if count == 0 {
        Seq::empty()
    } else {
        layers_steps(config, all_bf16, tracing, (count - 1) as nat) + layer_steps(
            config,
            count - 1,
            all_bf16[count - 1],
            tracing,
        )
    }
}

/// Before the layers: append the token where attention needs it, set the position,
/// embed.
pub open spec fn head_steps(
    config: &ModelConfig,
    token: u32,
    position: u32,
    tracing: bool,
) -> Seq<TraceStep> {
    let append = if config.attn_layers() > 0 {
        seq![TraceStep::AppendToken]
    } else {
        Seq::empty()
    };
    append + seq![
        TraceStep::Op(Op::SetPosition { position }),
        TraceStep::Op(
            Op::Embedding { out: ops::start(Buf::Hidden), token, dim: config.hidden_size },
        ),
    ] + record(tracing, Checkpoint::Embed)
}

/// After the layers: final norm, LM head (the embedding where tied), and the
/// closing checkpoints.
pub open spec fn tail_steps(config: &ModelConfig, tracing: bool) -> Seq<TraceStep> {
    let closing = if tracing {
        seq![
            TraceStep::Record(Checkpoint::FinalHidden),
            TraceStep::Record(Checkpoint::FinalNorm),
            TraceStep::Record(Checkpoint::TopLogits),
        ]
    } else {
        Seq::empty()
    };
    seq![
        TraceStep::Op(
            Op::RmsNorm {
                out: ops::start(Buf::Normed),
                input: ops::start(Buf::Hidden),
                weight: Weight::FinalNorm,
                dim: config.hidden_size,
                eps: config.rms_norm_eps,
                one_plus_w: config.rms_norm_one_plus_w,
            },
        ),
        TraceStep::Op(
            Op::Linear {
                out: ops::start(Buf::Logits),
                matrix: ops::whole(
                    if config.tie_word_embeddings { Weight::Embed } else { Weight::LmHead },
                ),
                input: ops::start(Buf::Normed),
                out_dim: config.vocab_size,
                in_dim: config.hidden_size,
            },
        ),
        TraceStep::Op(Op::Sync),
    ] + closing
}

/// The whole traced decode step.
pub open spec fn trace_steps(
    config: &ModelConfig,
    all_bf16: Seq<bool>,
    token: u32,
    position: u32,
    tracing: bool,
) -> Seq<TraceStep> {
    head_steps(config, token, position, tracing) + layers_steps(
        config,
        all_bf16,
        tracing,
        config.num_layers as nat,
    ) + tail_steps(config, tracing) + seq![TraceStep::StepDone { position }]
}

fn dense_plan(config: &ModelConfig, layer: usize) -> (r: Vec<TraceStep>)
    ensures
        r@ == dense_ops(config, layer).map_values(|o: Op| TraceStep::Op(o)),
{
    let hs: usize = config.hidden_size;
    let inner: usize = config.intermediate_size;
    let r: Vec<TraceStep> = vec![
        TraceStep::Op(Op::Copy { dst: at(Buf::Residual), src: at(Buf::Hidden), len: hs }),
        TraceStep::Op(
            Op::RmsNorm {
                out: at(Buf::Normed),
                input: at(Buf::Hidden),
                weight: Weight::PostNorm { layer },
                dim: hs,
                eps: config.rms_norm_eps,
                one_plus_w: config.rms_norm_one_plus_w,
            },
        ),
        TraceStep::Op(
            Op::Linear {
                out: at(Buf::FfnGate),
                matrix: all_of(Weight::FfnGate { layer }),
                input: at(Buf::Normed),
                out_dim: inner,
                in_dim: hs,
            },
        ),
        TraceStep::Op(
            Op::Linear {
                out: at(Buf::FfnUp),
                matrix: all_of(Weight::FfnUp { layer }),
                input: at(Buf::Normed),
                out_dim: inner,
                in_dim: hs,
            },
        ),
        TraceStep::Op(
            Op::SiluMul {
                out: at(Buf::FfnAct),
                gate: at(Buf::FfnGate),
                up: at(Buf::FfnUp),
                len: inner,
            },
        ),
        TraceStep::Op(
            Op::Linear {
                out: at(Buf::FfnDown),
                matrix: all_of(Weight::FfnDown { layer }),
                input: at(Buf::FfnAct),
                out_dim: hs,
                in_dim: inner,
            },
        ),
        TraceStep::Op(
            Op::ResidualAdd {
                out: at(Buf::Hidden),
                a: at(Buf::FfnDown),
                b: at(Buf::Residual),
                len: hs,
            },
        ),
    ];
    assert(r@ =~= dense_ops(config, layer).map_values(|o: Op| TraceStep::Op(o)));
    r
}

fn layer_plan(
    config: &ModelConfig,
    i: usize,
    index: usize,
    all_bf16: bool,
    tracing: bool,
) -> (r: Vec<TraceStep>)
    requires
        i < config.layers@.len(),
        traceable(config.layers@[i as int]),
        index == config::count_layers(
            config.layers@.take(i as int),
            config.layers@[i as int].layer_type,
        ),
    ensures
        r@ == layer_steps(config, i as int, all_bf16, tracing),
{
    let mut r: Vec<TraceStep> = Vec::new();
    match config.layers[i].layer_type {
        LayerType::Attention => {
            r.push(TraceStep::Attention { layer: i, attn: index });
        },
        LayerType::Gdn => {
            r.push(TraceStep::Gdn { layer: i, gdn: index });
        },
        LayerType::Mamba2 => {
            r.push(TraceStep::Mamba2 { layer: i, index });
        },
        LayerType::MoeFfn => {},
        LayerType::LfmConv => {},
    }
    if tracing {
        r.push(TraceStep::Record(Checkpoint::PostMixer { layer: i }));
    }
    match config.layers[i].ffn_type {
        FfnType::MoE { .. } => {
            r.push(TraceStep::Moe { layer: i });
        },
        FfnType::Absent => {},
        FfnType::Dense => {
            if all_bf16 {
                r.push(TraceStep::FusedFfn { layer: i });
            } else {
                let mut dense = dense_plan(config, i);
                r.append(&mut dense);
            }
        },
    }
    if tracing {
        r.push(TraceStep::Record(Checkpoint::PostFfn { layer: i }));
    }
    assert(r@ =~= layer_steps(config, i as int, all_bf16, tracing));
    r
}

fn head_plan(config: &ModelConfig, token: u32, position: u32, tracing: bool) -> (r: Vec<TraceStep>)
    ensures
        r@ == head_steps(config, token, position, tracing),
{
    let mut r: Vec<TraceStep> = Vec::new();
    if config.num_attn_layers() > 0 {
        r.push(TraceStep::AppendToken);
    }
    r.push(TraceStep::Op(Op::SetPosition { position }));
    r.push(TraceStep::Op(Op::Embedding { out: at(Buf::Hidden), token, dim: config.hidden_size }));
    if tracing {
        r.push(TraceStep::Record(Checkpoint::Embed));
    }
    assert(r@ =~= head_steps(config, token, position, tracing));
    r
}

fn tail_plan(config: &ModelConfig, tracing: bool) -> (r: Vec<TraceStep>)
    ensures
        r@ == tail_steps(config, tracing),
{
    let head_weight = if config.tie_word_embeddings {
        Weight::Embed
    } else {
        Weight::LmHead
    };
    let mut r: Vec<TraceStep> = vec![
        TraceStep::Op(
            Op::RmsNorm {
                out: at(Buf::Normed),
                input: at(Buf::Hidden),
                weight: Weight::FinalNorm,
                dim: config.hidden_size,
                eps: config.rms_norm_eps,
                one_plus_w: config.rms_norm_one_plus_w,
            },
        ),
        TraceStep::Op(
            Op::Linear {
                out: at(Buf::Logits),
                matrix: all_of(head_weight),
                input: at(Buf::Normed),
                out_dim: config.vocab_size,
                in_dim: config.hidden_size,
            },
        ),
        TraceStep::Op(Op::Sync),
    ];
    if tracing {
        r.push(TraceStep::Record(Checkpoint::FinalHidden));
        r.push(TraceStep::Record(Checkpoint::FinalNorm));
        r.push(TraceStep::Record(Checkpoint::TopLogits));
    }
    assert(r@ =~= tail_steps(config, tracing));
    r
}

fn layers_plan(config: &ModelConfig, all_bf16: &[bool], tracing: bool) -> (r: Vec<TraceStep>)
    requires
        config.num_layers <= config.layers@.len(),
        config.num_layers <= all_bf16@.len(),
        forall|i: int|
            0 <= i < config.num_layers ==> traceable(#[trigger] config.layers@[i]),
    ensures
        r@ == layers_steps(config, all_bf16@, tracing, config.num_layers as nat),
{
    let mut r: Vec<TraceStep> = Vec::new();
    let mut i: usize = 0;
    while i < config.num_layers
        invariant
            i <= config.num_layers,
            config.num_layers <= config.layers@.len(),
            config.num_layers <= all_bf16@.len(),
            forall|j: int|
                0 <= j < config.num_layers ==> traceable(#[trigger] config.layers@[j]),
            r@ == layers_steps(config, all_bf16@, tracing, i as nat),
        decreases config.num_layers - i,
    {
        let index: usize = count_layers_before(&config.layers, i, config.layers[i].layer_type);
        let mut one = layer_plan(config, i, index, all_bf16[i], tracing);
        r.append(&mut one);
        i += 1;
    }
    r
}

/// Plans a traced decode step. `all_bf16[i]` says whether the dense weights of
/// layer `i` are all unquantized.
pub fn decode_step_trace(
    config: &ModelConfig,
    all_bf16: &[bool],
    token: u32,
    position: u32,
    tracing: bool,
) -> (r: Vec<TraceStep>)
    requires
        config.num_layers <= config.layers@.len(),
        config.num_layers <= all_bf16@.len(),
        forall|i: int|
            0 <= i < config.num_layers ==> traceable(#[trigger] config.layers@[i]),
    ensures
        r@ == trace_steps(config, all_bf16@, token, position, tracing),
{
    let mut r = head_plan(config, token, position, tracing);
    let mut layers = layers_plan(config, all_bf16, tracing);
    r.append(&mut layers);
    let mut tail = tail_plan(config, tracing);
    r.append(&mut tail);
    r.push(TraceStep::StepDone { position });
    assert(r@ =~= trace_steps(config, all_bf16@, token, position, tracing));
    r
}

} // verus!
