//! Plan of one attention layer for one token.

use vstd::prelude::*;
use crate::arith;
use crate::config::ModelConfig;
use crate::model::kv_layout;
use crate::model::kv_layout::{plane_offsets, row_offset};
use crate::ops;
use crate::ops::{all_of, at, Buf, Loc, Op, Weight, CHUNK_TOKENS};

verus! {

/// Q rows per head: Q alone, or Q and its output gate interleaved.
pub open spec fn q_mult(config: &ModelConfig) -> nat {
    if config.has_output_gate {
        2
    } else {
        1
    }
}

/// Elements of all Q heads.
pub open spec fn q_len(config: &ModelConfig) -> nat {
    config.num_q_heads as nat * config.head_dim as nat
}

/// Elements of all KV heads.
pub open spec fn kv_len(config: &ModelConfig) -> nat {
    config.num_kv_heads as nat * config.head_dim as nat
}

/// The projections and the KV chunk are addressable.
pub open spec fn dims_fit(config: &ModelConfig) -> bool {
    &&& kv_layout::chunk_fits(config)
    &&& q_len(config) * q_mult(config) <= usize::MAX
}

/// Projects Q (with gate), K and V.
pub open spec fn project_ops(config: &ModelConfig, layer: usize) -> Seq<Op> {
    let hs = config.hidden_size;
    let normed = ops::start(Buf::Normed);
    seq![
        Op::RmsNorm {
            out: normed,
            input: ops::start(Buf::Hidden),
            weight: Weight::InputNorm { layer },
            dim: hs,
            eps: config.rms_norm_eps,
            one_plus_w: config.rms_norm_one_plus_w,
        },
        Op::Linear {
            out: ops::start(Buf::QGateAttn),
            matrix: ops::whole(Weight::QGate { layer }),
            input: normed,
            out_dim: (q_len(config) * q_mult(config)) as usize,
            in_dim: hs,
        },
        Op::Linear {
            out: ops::start(Buf::KAttn),
            matrix: ops::whole(Weight::K { layer }),
            input: normed,
            out_dim: kv_len(config) as usize,
            in_dim: hs,
        },
        Op::Linear {
            out: ops::start(Buf::VAttn),
            matrix: ops::whole(Weight::V { layer }),
            input: normed,
            out_dim: kv_len(config) as usize,
            in_dim: hs,
        },
    ]
}

/// Separates the first `heads` interleaved (Q, gate) heads.
pub open spec fn split_heads(config: &ModelConfig, heads: nat) -> Seq<Op>
    decreases heads,
{
    if heads == 0 {
        Seq::empty()
    } else {
        let h = (heads - 1) as nat;
        let hd = config.head_dim as nat;
        split_heads(config, h) + seq![
            Op::Copy {
                dst: Loc { buf: Buf::QAttn, offset: (h * hd) as usize },
                src: Loc { buf: Buf::QGateAttn, offset: (h * hd * 2) as usize },
                len: config.head_dim,
            },
            Op::Copy {
                dst: Loc { buf: Buf::GateAttn, offset: (h * hd) as usize },
                src: Loc { buf: Buf::QGateAttn, offset: (h * hd * 2 + hd) as usize },
                len: config.head_dim,
            },
        ]
    }
}

/// Brings Q (and its gate) into their own buffers.
pub open spec fn split_ops(config: &ModelConfig) -> Seq<Op> {
    if config.has_output_gate {
        split_heads(config, config.num_q_heads as nat)
    } else {
        seq![
            Op::Copy {
                dst: ops::start(Buf::QAttn),
                src: ops::start(Buf::QGateAttn),
                len: q_len(config) as usize,
            },
        ]
    }
}

/// Writes the first `heads` heads of K and V at row `row` of the current chunk of
/// GPU 0, before any normalisation.
pub open spec fn kv_write_ops(config: &ModelConfig, attn: nat, row: nat, heads: nat) -> Seq<Op>
    decreases heads,
{
    if heads == 0 {
        Seq::empty()
    } else {
        let h = (heads - 1) as nat;
        let at_row = kv_layout::head_row(config, h, row);
        let src = (h * config.head_dim as nat) as usize;
        kv_write_ops(config, attn, row, h) + seq![
            Op::Copy {
                dst: Loc {
                    buf: Buf::KvChunk { gpu: 0 },
                    offset: (kv_layout::k_plane(config, attn) + at_row) as usize,
                },
                src: Loc { buf: Buf::KAttn, offset: src },
                len: config.head_dim,
            },
            Op::Copy {
                dst: Loc {
                    buf: Buf::KvChunk { gpu: 0 },
                    offset: (kv_layout::v_plane(config, attn) + at_row) as usize,
                },
                src: Loc { buf: Buf::VAttn, offset: src },
                len: config.head_dim,
            },
        ]
    }
}

/// Normalises Q and K: per head when the weight is one head long, else as one row.
pub open spec fn qk_norm_ops(config: &ModelConfig, layer: usize, norm_len: usize) -> Seq<Op> {
    if !config.has_qk_norm {
        Seq::empty()
    } else if norm_len == config.head_dim {
        seq![
            Op::QkNorm {
                layer,
                q_heads: config.num_q_heads,
                kv_heads: config.num_kv_heads,
                head_dim: config.head_dim,
                eps: config.rms_norm_eps,
            },
        ]
    } else {
        let normed = ops::start(Buf::Normed);
        seq![
            Op::RmsNorm {
                out: normed,
                input: ops::start(Buf::QAttn),
                weight: Weight::QNorm { layer },
                dim: q_len(config) as usize,
                eps: config.rms_norm_eps,
                one_plus_w: config.rms_norm_one_plus_w,
            },
            Op::Copy { dst: ops::start(Buf::QAttn), src: normed, len: q_len(config) as usize },
            Op::RmsNorm {
                out: normed,
                input: ops::start(Buf::KAttn),
                weight: Weight::KNorm { layer },
                dim: kv_len(config) as usize,
                eps: config.rms_norm_eps,
                one_plus_w: config.rms_norm_one_plus_w,
            },
            Op::Copy { dst: ops::start(Buf::KAttn), src: normed, len: kv_len(config) as usize },
        ]
    }
}

/// Rotates Q and K, for models that do.
pub open spec fn rope_ops(config: &ModelConfig, position: u32) -> Seq<Op> {
    if config.use_rope {
        seq![
            Op::SetPosition { position },
            Op::Rope {
                q_heads: config.num_q_heads,
                kv_heads: config.num_kv_heads,
                head_dim: config.head_dim,
                rope_dim: config.rope_dim,
                section0: config.mrope_section.0,
                section1: config.mrope_section.1,
                section2: config.mrope_section.2,
            },
        ]
    } else {
        Seq::empty()
    }
}

/// Attends, gates, projects and adds the residual.
pub open spec fn attend_ops(
    config: &ModelConfig,
    layer: usize,
    attn: nat,
    position: u32,
    norm_len: usize,
) -> Seq<Op> {
    let gate = if config.has_output_gate {
        seq![
            Op::OutputGate {
                out: ops::start(Buf::GatedOut),
                attn: ops::start(Buf::AttnOut),
                gate: ops::start(Buf::GateAttn),
                len: q_len(config) as usize,
            },
        ]
    } else {
        Seq::empty()
    };
    seq![
        Op::PagedAttention {
            out: ops::start(Buf::AttnOut),
            q: ops::start(Buf::QAttn),
            gpu: 0,
            q_heads: config.num_q_heads,
            kv_heads: config.num_kv_heads,
            head_dim: config.head_dim,
            seq_len: (position + 1) as usize,
            chunk_tokens: CHUNK_TOKENS,
            rope_dim: config.rope_dim,
            k_offset: kv_layout::k_plane(config, attn) as usize,
            v_offset: kv_layout::v_plane(config, attn) as usize,
            k_norm: if config.has_qk_norm && norm_len == config.head_dim {
                Some(Weight::KNorm { layer })
            } else {
                None
            },
            rotary: None,
            q_head_start: 0,
            local_q_heads: config.num_q_heads,
        },
    ] + gate + seq![
        Op::Linear {
            out: ops::start(Buf::OutProj),
            matrix: ops::whole(Weight::O { layer }),
            input: ops::start(if config.has_output_gate { Buf::GatedOut } else { Buf::AttnOut }),
            out_dim: config.hidden_size,
            in_dim: q_len(config) as usize,
        },
        Op::Copy {
            dst: ops::start(Buf::Residual),
            src: ops::start(Buf::Hidden),
            len: config.hidden_size,
        },
        Op::ResidualAdd {
            out: ops::start(Buf::Hidden),
            a: ops::start(Buf::OutProj),
            b: ops::start(Buf::Residual),
            len: config.hidden_size,
        },
    ]
}

/// The whole attention layer. `row` is the token's row in the current chunk.
pub open spec fn attention_ops(
    config: &ModelConfig,
    layer: usize,
    attn: nat,
    position: u32,
    row: nat,
    norm_len: usize,
) -> Seq<Op> {
    project_ops(config, layer) + split_ops(config) + kv_write_ops(
        config,
        attn,
        row,
        config.num_kv_heads as nat,
    ) + qk_norm_ops(config, layer, norm_len) + rope_ops(config, position) + attend_ops(
        config,
        layer,
        attn,
        position,
        norm_len,
    )
}

fn split_plan(config: &ModelConfig) -> (r: Vec<Op>)
    requires
        dims_fit(config),
    ensures
        r@ == split_ops(config),
{
    let hd: usize = config.head_dim;
    let nqh: usize = config.num_q_heads;
    let mut r: Vec<Op> = Vec::new();
    if config.has_output_gate {
        let mut h: usize = 0;
        while h < nqh
            invariant
                h <= nqh,
                nqh == config.num_q_heads,
                hd == config.head_dim,
                dims_fit(config),
                config.has_output_gate,
                r@ == split_heads(config, h as nat),
            decreases nqh - h,
        {
            proof {
                arith::lemma_scaled_index(h as int, nqh as int, hd as int);
            }
            r.push(
                Op::Copy {
                    dst: Loc { buf: Buf::QAttn, offset: h * hd },
                    src: Loc { buf: Buf::QGateAttn, offset: h * hd * 2 },
                    len: hd,
                },
            );
            r.push(
                Op::Copy {
                    dst: Loc { buf: Buf::GateAttn, offset: h * hd },
                    src: Loc { buf: Buf::QGateAttn, offset: h * hd * 2 + hd },
                    len: hd,
                },
            );
            proof {
                assert(r@ =~= split_heads(config, (h + 1) as nat));
            }
            h += 1;
        }
    } else {
        r.push(Op::Copy { dst: at(Buf::QAttn), src: at(Buf::QGateAttn), len: nqh * hd });
        assert(r@ =~= split_ops(config));
    }
    r
}

fn kv_write_plan(config: &ModelConfig, attn: usize, row: usize) -> (r: Vec<Op>)
    requires
        dims_fit(config),
        attn < config.attn_layers(),
        row < CHUNK_TOKENS,
    ensures
        r@ == kv_write_ops(config, attn as nat, row as nat, config.num_kv_heads as nat),
{
    let (k_offset, v_offset): (usize, usize) = plane_offsets(config, attn);
    let hd: usize = config.head_dim;
    let nkh: usize = config.num_kv_heads;
    let mut r: Vec<Op> = Vec::new();
    let mut h: usize = 0;
    while h < nkh
        invariant
            h <= nkh,
            nkh == config.num_kv_heads,
            hd == config.head_dim,
            dims_fit(config),
            attn < config.attn_layers(),
            row < CHUNK_TOKENS,
            k_offset == kv_layout::k_plane(config, attn as nat),
            v_offset == kv_layout::v_plane(config, attn as nat),
            v_offset + kv_layout::plane_bytes(config) <= usize::MAX,
            r@ == kv_write_ops(config, attn as nat, row as nat, h as nat),
        decreases nkh - h,
    {
        proof {
            arith::lemma_scaled_index(h as int, nkh as int, hd as int);
        }
        let src_off: usize = h * hd;
        let head_byte_off: usize = row_offset(config, h, row);
        r.push(
            Op::Copy {
                dst: Loc { buf: Buf::KvChunk { gpu: 0 }, offset: k_offset + head_byte_off },
                src: Loc { buf: Buf::KAttn, offset: src_off },
                len: hd,
            },
        );
        r.push(
            Op::Copy {
                dst: Loc { buf: Buf::KvChunk { gpu: 0 }, offset: v_offset + head_byte_off },
                src: Loc { buf: Buf::VAttn, offset: src_off },
                len: hd,
            },
        );
        proof {
            assert(r@ =~= kv_write_ops(config, attn as nat, row as nat, (h + 1) as nat));
        }
        h += 1;
    }
    r
}

fn qk_norm_plan(config: &ModelConfig, layer: usize, norm_len: usize) -> (r: Vec<Op>)
    requires
        dims_fit(config),
    ensures
        r@ == qk_norm_ops(config, layer, norm_len),
{
    let mut r: Vec<Op> = Vec::new();
    if config.has_qk_norm {
        if norm_len == config.head_dim {
            r.push(
                Op::QkNorm {
                    layer,
                    q_heads: config.num_q_heads,
                    kv_heads: config.num_kv_heads,
                    head_dim: config.head_dim,
                    eps: config.rms_norm_eps,
                },
            );
        } else {
            let q: usize = config.num_q_heads * config.head_dim;
            let kv: usize = config.num_kv_heads * config.head_dim;
            r.push(
                Op::RmsNorm {
                    out: at(Buf::Normed),
                    input: at(Buf::QAttn),
                    weight: Weight::QNorm { layer },
                    dim: q,
                    eps: config.rms_norm_eps,
                    one_plus_w: config.rms_norm_one_plus_w,
                },
            );
            r.push(Op::Copy { dst: at(Buf::QAttn), src: at(Buf::Normed), len: q });
            r.push(
                Op::RmsNorm {
                    out: at(Buf::Normed),
                    input: at(Buf::KAttn),
                    weight: Weight::KNorm { layer },
                    dim: kv,
                    eps: config.rms_norm_eps,
                    one_plus_w: config.rms_norm_one_plus_w,
                },
            );
            r.push(Op::Copy { dst: at(Buf::KAttn), src: at(Buf::Normed), len: kv });
        }
    }
    assert(r@ =~= qk_norm_ops(config, layer, norm_len));
    r
}

fn attend_plan(
    config: &ModelConfig,
    layer: usize,
    attn: usize,
    position: u32,
    norm_len: usize,
) -> (r: Vec<Op>)
    requires
        dims_fit(config),
        attn < config.attn_layers(),
        position < u32::MAX,
    ensures
        r@ == attend_ops(config, layer, attn as nat, position, norm_len),
{
    let (k_offset, v_offset): (usize, usize) = plane_offsets(config, attn);
    let q: usize = config.num_q_heads * config.head_dim;
    let k_norm = if config.has_qk_norm && norm_len == config.head_dim {
        Some(Weight::KNorm { layer })
    } else {
        None
    };
    let mut r: Vec<Op> = Vec::new();
    r.push(
        Op::PagedAttention {
            out: at(Buf::AttnOut),
            q: at(Buf::QAttn),
            gpu: 0,
            q_heads: config.num_q_heads,
            kv_heads: config.num_kv_heads,
            head_dim: config.head_dim,
            seq_len: (position + 1) as usize,
            chunk_tokens: CHUNK_TOKENS,
            rope_dim: config.rope_dim,
            k_offset,
            v_offset,
            k_norm,
            rotary: None,
            q_head_start: 0,
            local_q_heads: config.num_q_heads,
        },
    );
    let final_attn = if config.has_output_gate {
        r.push(
            Op::OutputGate {
                out: at(Buf::GatedOut),
                attn: at(Buf::AttnOut),
                gate: at(Buf::GateAttn),
                len: q,
            },
        );
        at(Buf::GatedOut)
    } else {
        at(Buf::AttnOut)
    };
    r.push(
        Op::Linear {
            out: at(Buf::OutProj),
            matrix: all_of(Weight::O { layer }),
            input: final_attn,
            out_dim: config.hidden_size,
            in_dim: q,
        },
    );
    r.push(Op::Copy { dst: at(Buf::Residual), src: at(Buf::Hidden), len: config.hidden_size });
    r.push(
        Op::ResidualAdd {
            out: at(Buf::Hidden),
            a: at(Buf::OutProj),
            b: at(Buf::Residual),
            len: config.hidden_size,
        },
    );
    assert(r@ =~= attend_ops(config, layer, attn as nat, position, norm_len));
    r
}

/// Plans one attention layer. `attn` counts attention layers, `chunk_len` is the
/// number of tokens in the current chunk with this one, and `norm_len` the length
/// of the Q norm weight.
pub fn attention_forward(
    config: &ModelConfig,
    layer: usize,
    attn: usize,
    position: u32,
    chunk_len: u32,
    norm_len: usize,
) -> (r: Vec<Op>)
    requires
        dims_fit(config),
        attn < config.attn_layers(),
        position < u32::MAX,
        1 <= chunk_len <= CHUNK_TOKENS,
    ensures
        r@ == attention_ops(
            config,
            layer,
            attn as nat,
            position,
            (chunk_len - 1) as nat,
            norm_len,
        ),
{
    let hs: usize = config.hidden_size;
    let q: usize = config.num_q_heads * config.head_dim;
    let q_gate: usize = if config.has_output_gate {
        q * 2
    } else {
        q
    };
    let kv: usize = config.num_kv_heads * config.head_dim;
    let mut r: Vec<Op> = vec![
        Op::RmsNorm {
            out: at(Buf::Normed),
            input: at(Buf::Hidden),
            weight: Weight::InputNorm { layer },
            dim: hs,
            eps: config.rms_norm_eps,
            one_plus_w: config.rms_norm_one_plus_w,
        },
        Op::Linear {
            out: at(Buf::QGateAttn),
            matrix: all_of(Weight::QGate { layer }),
            input: at(Buf::Normed),
            out_dim: q_gate,
            in_dim: hs,
        },
        Op::Linear {
            out: at(Buf::KAttn),
            matrix: all_of(Weight::K { layer }),
            input: at(Buf::Normed),
            out_dim: kv,
            in_dim: hs,
        },
        Op::Linear {
            out: at(Buf::VAttn),
            matrix: all_of(Weight::V { layer }),
            input: at(Buf::Normed),
            out_dim: kv,
            in_dim: hs,
        },
    ];
    assert(r@ =~= project_ops(config, layer));
    let mut split = split_plan(config);
    r.append(&mut split);
    let mut write = kv_write_plan(config, attn, (chunk_len - 1) as usize);
    r.append(&mut write);
    let mut norm = qk_norm_plan(config, layer, norm_len);
    r.append(&mut norm);
    let mut rope: Vec<Op> = Vec::new();
    if config.use_rope {
        rope.push(Op::SetPosition { position });
        rope.push(
            Op::Rope {
                q_heads: config.num_q_heads,
                kv_heads: config.num_kv_heads,
                head_dim: config.head_dim,
                rope_dim: config.rope_dim,
                section0: config.mrope_section.0,
                section1: config.mrope_section.1,
                section2: config.mrope_section.2,
            },
        );
    }
    assert(rope@ =~= rope_ops(config, position));
    r.append(&mut rope);
    let mut attend = attend_plan(config, layer, attn, position, norm_len);
    r.append(&mut attend);
    r
}

} // verus!
