//! Attention shared between GPUs during decode: every GPU holds all KV heads and
//! attends with its own slice of the Q heads; GPU 0 gathers the results.

use vstd::prelude::*;
use crate::arith;
use crate::config;
use crate::config::{find_nth_layer, LayerType, ModelConfig};
use crate::model::attention_forward;
use crate::model::kv_layout;
use crate::model::kv_layout::{plane_offsets, row_offset};
use crate::ops;
use crate::ops::{
    all_of, at, blocks_for, copy_of, inst, linear_of, Buf, Inst, Loc, Op, Rotary, Signal, SignalSlot,
    Weight, CHUNK_TOKENS,
};
use crate::per_batch_dispatch::MAX_BATCH_INSTRUCTIONS;

verus! {

/// Q heads of each GPU.
pub open spec fn local_heads(config: &ModelConfig, num_gpus: nat) -> nat {
    config.num_q_heads as nat / num_gpus
}

/// The heads divide evenly, fit the instruction's head fields, and everything is
/// addressable.
pub open spec fn split_ok(config: &ModelConfig, num_gpus: nat) -> bool {
    &&& num_gpus > 0
    &&& config.num_q_heads as nat % num_gpus == 0
    &&& local_heads(config, num_gpus) > 0
    &&& config.num_q_heads <= u16::MAX
    &&& attention_forward::dims_fit(config)
}

/// Which buffers a GPU works on.
pub open spec fn q_gate_buf(gpu: nat) -> Buf {
    if gpu == 0 {
        Buf::QGateAttn
    } else {
        Buf::WorkerQGate { gpu: gpu as usize }
    }
}

pub open spec fn q_buf(gpu: nat) -> Buf {
    if gpu == 0 {
        Buf::QAttn
    } else {
        Buf::WorkerQ { gpu: gpu as usize }
    }
}

pub open spec fn k_buf(gpu: nat) -> Buf {
    if gpu == 0 {
        Buf::KAttn
    } else {
        Buf::WorkerK { gpu: gpu as usize }
    }
}

pub open spec fn v_buf(gpu: nat) -> Buf {
    if gpu == 0 {
        Buf::VAttn
    } else {
        Buf::WorkerV { gpu: gpu as usize }
    }
}

pub open spec fn gate_buf(gpu: nat) -> Buf {
    if gpu == 0 {
        Buf::GateAttn
    } else {
        Buf::WorkerGate { gpu: gpu as usize }
    }
}

pub open spec fn out_buf(gpu: nat) -> Buf {
    if gpu == 0 {
        Buf::AttnOut
    } else {
        Buf::WorkerAttnOut { gpu: gpu as usize }
    }
}

pub open spec fn normed_buf(gpu: nat) -> Buf {
    if gpu == 0 {
        Buf::NormedStage
    } else {
        Buf::WorkerNormed { gpu: gpu as usize }
    }
}

/// Projection weights of a GPU: GPU 0 reads the model's, workers their slices.
pub open spec fn q_weight(gpu: nat, layer: usize, attn: usize) -> Weight {
    if gpu == 0 {
        Weight::QGate { layer }
    } else {
        Weight::WorkerQGate { gpu: gpu as usize, attn }
    }
}

pub open spec fn k_weight(gpu: nat, layer: usize, attn: usize) -> Weight {
    if gpu == 0 {
        Weight::K { layer }
    } else {
        Weight::WorkerK { gpu: gpu as usize, attn }
    }
}

pub open spec fn v_weight(gpu: nat, layer: usize, attn: usize) -> Weight {
    if gpu == 0 {
        Weight::V { layer }
    } else {
        Weight::WorkerV { gpu: gpu as usize, attn }
    }
}

/// A worker first fetches the normalised activations, once GPU 0 signals them.
pub open spec fn fetch_normed(
    config: &ModelConfig,
    gpu: nat,
    attn: usize,
    position: u32,
) -> Seq<Inst> {
    if gpu == 0 {
        Seq::empty()
    } else {
        seq![
            Inst {
                wait: Some(
                    Signal {
                        slot: SignalSlot::NormedReady { attn },
                        value: (position + 1) as u64,
                    },
                ),
                ..ops::copy_inst(
                    ops::start(normed_buf(gpu)),
                    ops::start(Buf::NormedStage),
                    config.hidden_size as nat,
                )
            },
        ]
    }
}

/// Projects the GPU's Q heads and all KV heads, and separates Q from its gate.
pub open spec fn project(
    config: &ModelConfig,
    gpu: nat,
    num_gpus: nat,
    layer: usize,
    attn: usize,
) -> Seq<Inst> {
    let hs = config.hidden_size as nat;
    let hd = config.head_dim as nat;
    let q_elems = local_heads(config, num_gpus) * hd;
    let kv = attention_forward::kv_len(config);
    let input = ops::start(normed_buf(gpu));
    let split = if config.has_output_gate {
        ops::plain(
            ops::blocks(q_elems),
            Op::Deinterleave {
                q: ops::start(q_buf(gpu)),
                gate: ops::start(gate_buf(gpu)),
                input: ops::start(q_gate_buf(gpu)),
                heads: local_heads(config, num_gpus) as usize,
                head_dim: config.head_dim,
            },
        )
    } else {
        ops::copy_inst(ops::start(q_buf(gpu)), ops::start(q_gate_buf(gpu)), q_elems)
    };
    seq![
        ops::linear_inst(
            ops::start(q_gate_buf(gpu)),
            ops::whole(q_weight(gpu, layer, attn)),
            input,
            q_elems * attention_forward::q_mult(config),
            hs,
        ),
        ops::linear_inst(
            ops::start(k_buf(gpu)),
            ops::whole(k_weight(gpu, layer, attn)),
            input,
            kv,
            hs,
        ),
        ops::linear_inst(
            ops::start(v_buf(gpu)),
            ops::whole(v_weight(gpu, layer, attn)),
            input,
            kv,
            hs,
        ),
        split,
    ]
}

/// When GPU 0 projected everything, a worker only fetches its slice of Q.
pub open spec fn fetch_q(config: &ModelConfig, gpu: nat, num_gpus: nat) -> Seq<Inst> {
    let q_elems = local_heads(config, num_gpus) * config.head_dim as nat;
    if gpu == 0 {
        Seq::empty()
    } else {
        seq![
            ops::copy_inst(
                ops::start(q_buf(gpu)),
                Loc { buf: Buf::QAttn, offset: (gpu * q_elems) as usize },
                q_elems,
            ),
        ]
    }
}

/// Writes the first `heads` KV heads of the token into the GPU's current chunk.
pub open spec fn kv_write(
    config: &ModelConfig,
    gpu: nat,
    attn: nat,
    row: nat,
    k: Buf,
    v: Buf,
    heads: nat,
) -> Seq<Inst>
    decreases heads,
{
    if heads == 0 {
        Seq::empty()
    } else {
        let h = (heads - 1) as nat;
        let hd = config.head_dim as nat;
        let at_row = kv_layout::head_row(config, h, row);
        let chunk = Buf::KvChunk { gpu: gpu as usize };
        kv_write(config, gpu, attn, row, k, v, h) + seq![
            ops::copy_inst(
                Loc {
                    buf: chunk,
                    offset: (kv_layout::k_plane(config, attn) + at_row) as usize,
                },
                Loc { buf: k, offset: (h * hd) as usize },
                hd,
            ),
            ops::copy_inst(
                Loc {
                    buf: chunk,
                    offset: (kv_layout::v_plane(config, attn) + at_row) as usize,
                },
                Loc { buf: v, offset: (h * hd) as usize },
                hd,
            ),
        ]
    }
}

/// Attention over the GPU's Q heads.
pub open spec fn attend(
    config: &ModelConfig,
    gpu: nat,
    num_gpus: nat,
    layer: usize,
    attn: nat,
    position: u32,
) -> Inst {
    let local = local_heads(config, num_gpus);
    ops::plain(
        local,
        Op::PagedAttention {
            out: ops::start(out_buf(gpu)),
            q: ops::start(q_buf(gpu)),
            gpu: gpu as usize,
            q_heads: config.num_q_heads,
            kv_heads: config.num_kv_heads,
            head_dim: config.head_dim,
            seq_len: (position + 1) as usize,
            chunk_tokens: CHUNK_TOKENS,
            rope_dim: config.rope_dim,
            k_offset: kv_layout::k_plane(config, attn) as usize,
            v_offset: kv_layout::v_plane(config, attn) as usize,
            k_norm: if config.has_qk_norm {
                Some(Weight::KNorm { layer })
            } else {
                None
            },
            rotary: Some(
                Rotary {
                    eps: config.rms_norm_eps,
                    section0: config.mrope_section.0,
                    section1: config.mrope_section.1,
                },
            ),
            q_head_start: (gpu * local) as usize,
            local_q_heads: local as usize,
        },
    )
}

/// The whole batch of one GPU.
pub open spec fn gpu_batch(
    config: &ModelConfig,
    gpu: nat,
    num_gpus: nat,
    attn: usize,
    position: u32,
    row: nat,
    distributed: bool,
) -> Seq<Inst> {
    let layer = config::nth_layer(config.layers@, LayerType::Attention, attn as nat) as usize;
    let nkh = config.num_kv_heads as nat;
    let last = seq![attend(config, gpu, num_gpus, layer, attn as nat, position)];
    if distributed {
        fetch_normed(config, gpu, attn, position) + project(config, gpu, num_gpus, layer, attn)
            + kv_write(config, gpu, attn as nat, row, k_buf(gpu), v_buf(gpu), nkh) + last
    } else {
        fetch_q(config, gpu, num_gpus) + kv_write(
            config,
            gpu,
            attn as nat,
            row,
            Buf::KAttn,
            Buf::VAttn,
            nkh,
        ) + last
    }
}

/// Collects one buffer of the first `count` GPUs, GPU 0 excepted, behind GPU 0's own.
pub open spec fn gather_from(q_elems: nat, dst: Buf, gate: bool, count: nat) -> Seq<Inst>
    decreases count,
{
    if count <= 1 {
        Seq::empty()
    } else {
        let g = (count - 1) as nat;
        gather_from(q_elems, dst, gate, g) + seq![
            ops::copy_inst(
                Loc { buf: dst, offset: (g * q_elems) as usize },
                ops::start(if gate { gate_buf(g) } else { out_buf(g) }),
                q_elems,
            ),
        ]
    }
}

/// What GPU 0 runs afterwards to collect outputs and, where there are any, gates.
pub open spec fn gather_insts(config: &ModelConfig, num_gpus: nat, distributed: bool) -> Seq<Inst> {
    let q_elems = local_heads(config, num_gpus) * config.head_dim as nat;
    let gates = if distributed && config.has_output_gate {
        gather_from(q_elems, Buf::GateAttn, true, num_gpus)
    } else {
        Seq::empty()
    };
    gather_from(q_elems, Buf::AttnOut, false, num_gpus) + gates
}

/// Row of the token in a chunk that holds `chunk_len` tokens with it.
pub open spec fn row_in(chunk_len: u32) -> nat {
    if chunk_len == 0 {
        0
    } else {
        (chunk_len - 1) as nat
    }
}

/// Batches of all GPUs, and GPU 0's gather instructions.
pub struct HeadParallelPlan {
    pub batches: Vec<Vec<Inst>>,
    pub gather: Vec<Inst>,
}

/// Slices of the Q heads: every head belongs to exactly one GPU.
pub proof fn law_heads_partitioned(config: &ModelConfig, num_gpus: nat, head: nat)
    requires
        num_gpus > 0,
        config.num_q_heads as nat % num_gpus == 0,
        head < config.num_q_heads,
    ensures
        ({
            let local = local_heads(config, num_gpus);
            let g = head / local;
            &&& local > 0
            &&& g < num_gpus
            &&& g * local <= head < (g + 1) * local
            &&& forall|o: nat|
                o < num_gpus && #[trigger] (o * local) <= head && head < o * local + local ==> o
                    == g
            &&& local * num_gpus == config.num_q_heads
        }),
{
    let nqh = config.num_q_heads as nat;
    let local = local_heads(config, num_gpus);
    vstd::arithmetic::div_mod::lemma_fundamental_div_mod(nqh as int, num_gpus as int);
    assert(local * num_gpus == num_gpus * local) by (nonlinear_arith);
    assert(local > 0) by (nonlinear_arith)
        requires
            local * num_gpus == nqh,
            nqh > 0,
            local >= 0,
    ;
    let g = head / local;
    vstd::arithmetic::div_mod::lemma_fundamental_div_mod(head as int, local as int);
    vstd::arithmetic::div_mod::lemma_mod_bound(head as int, local as int);
    assert(local * g == g * local) by (nonlinear_arith);
    assert((g + 1) * local == g * local + local) by (nonlinear_arith);
    assert(g < num_gpus) by (nonlinear_arith)
        requires
            g * local <= head,
            head < local * num_gpus,
            local > 0,
    ;
    assert forall|o: nat|
        o < num_gpus && #[trigger] (o * local) <= head && head < o * local + local implies o == g by {
        if o < g {
            arith::lemma_scaled_index(o as int, g as int, local as int);
        } else if g < o {
            arith::lemma_scaled_index(g as int, o as int, local as int);
        }
    }
}

/// The gathered slices lie one after another and fill the Q-sized buffer.
pub proof fn law_gather_fills_buffer(config: &ModelConfig, num_gpus: nat, gpu: nat)
    requires
        split_ok(config, num_gpus),
        gpu < num_gpus,
    ensures
        ({
            let q_elems = local_heads(config, num_gpus) * config.head_dim as nat;
            &&& gpu * q_elems + q_elems == (gpu + 1) * q_elems
            &&& (gpu + 1) * q_elems <= attention_forward::q_len(config)
            &&& num_gpus * q_elems == attention_forward::q_len(config)
        }),
{
    let local = local_heads(config, num_gpus);
    let hd = config.head_dim as nat;
    let q_elems = local * hd;
    vstd::arithmetic::div_mod::lemma_fundamental_div_mod(
        config.num_q_heads as int,
        num_gpus as int,
    );
    assert(num_gpus * (local * hd) == (num_gpus * local) * hd) by (nonlinear_arith);
    arith::lemma_scaled_index(gpu as int, num_gpus as int, q_elems as int);
    assert((gpu + 1) * q_elems == gpu * q_elems + q_elems) by (nonlinear_arith);
}

/// Sizes that every plan below needs.
proof fn lemma_sizes(config: &ModelConfig, num_gpus: nat)
    requires
        split_ok(config, num_gpus),
    ensures
        ({
            let q_elems = local_heads(config, num_gpus) * config.head_dim as nat;
            &&& q_elems * attention_forward::q_mult(config) <= usize::MAX
            &&& q_elems <= attention_forward::q_len(config) <= usize::MAX
            &&& local_heads(config, num_gpus) <= config.num_q_heads
        }),
{
    law_gather_fills_buffer(config, num_gpus, 0);
    let q_elems = local_heads(config, num_gpus) * config.head_dim as nat;
    assert(q_elems <= attention_forward::q_len(config));
    let q = attention_forward::q_len(config) as int;
    arith::lemma_mul_mono(q_elems as int, q, attention_forward::q_mult(config) as int);
    vstd::arithmetic::div_mod::lemma_div_is_ordered_by_denominator(
        config.num_q_heads as int,
        1,
        num_gpus as int,
    );
    let m = attention_forward::q_mult(config) as int;
    assert(q <= q * m) by (nonlinear_arith)
        requires
            q >= 0,
            m >= 1,
    ;
}

fn fetch_normed_plan(config: &ModelConfig, gpu: usize, attn: usize, position: u32) -> (r: Vec<Inst>)
    requires
        position < u32::MAX,
    ensures
        r@ == fetch_normed(config, gpu as nat, attn, position),
{
    let mut r: Vec<Inst> = Vec::new();
    if gpu > 0 {
        r.push(
            Inst {
                wait: Some(
                    Signal {
                        slot: SignalSlot::NormedReady { attn },
                        value: (position + 1) as u64,
                    },
                ),
                ..copy_of(
                    at(Buf::WorkerNormed { gpu }),
                    at(Buf::NormedStage),
                    config.hidden_size,
                )
            },
        );
    }
    assert(r@ =~= fetch_normed(config, gpu as nat, attn, position));
    r
}

fn project_plan(
    config: &ModelConfig,
    gpu: usize,
    num_gpus: usize,
    layer: usize,
    attn: usize,
) -> (r: Vec<Inst>)
    requires
        split_ok(config, num_gpus as nat),
    ensures
        r@ == project(config, gpu as nat, num_gpus as nat, layer, attn),
{
    proof {
        lemma_sizes(config, num_gpus as nat);
    }
    let hs: usize = config.hidden_size;
    let local: usize = config.num_q_heads / num_gpus;
    let q_elems: usize = local * config.head_dim;
    let q_rows: usize = if config.has_output_gate {
        q_elems * 2
    } else {
        q_elems
    };
    let kv: usize = config.num_kv_heads * config.head_dim;
    let input = if gpu == 0 {
        at(Buf::NormedStage)
    } else {
        at(Buf::WorkerNormed { gpu })
    };
    let q_gate = if gpu == 0 {
        at(Buf::QGateAttn)
    } else {
        at(Buf::WorkerQGate { gpu })
    };
    let q = if gpu == 0 {
        at(Buf::QAttn)
    } else {
        at(Buf::WorkerQ { gpu })
    };
    let k = if gpu == 0 {
        at(Buf::KAttn)
    } else {
        at(Buf::WorkerK { gpu })
    };
    let v = if gpu == 0 {
        at(Buf::VAttn)
    } else {
        at(Buf::WorkerV { gpu })
    };
    let gate = if gpu == 0 {
        at(Buf::GateAttn)
    } else {
        at(Buf::WorkerGate { gpu })
    };
    let (w_q, w_k, w_v) = if gpu == 0 {
        (Weight::QGate { layer }, Weight::K { layer }, Weight::V { layer })
    } else {
        (
            Weight::WorkerQGate { gpu, attn },
            Weight::WorkerK { gpu, attn },
            Weight::WorkerV { gpu, attn },
        )
    };
    let mut r: Vec<Inst> = Vec::new();
    r.push(linear_of(q_gate, all_of(w_q), input, q_rows, hs));
    r.push(linear_of(k, all_of(w_k), input, kv, hs));
    r.push(linear_of(v, all_of(w_v), input, kv, hs));
    if config.has_output_gate {
        r.push(
            inst(
                blocks_for(q_elems),
                Op::Deinterleave {
                    q,
                    gate,
                    input: q_gate,
                    heads: local,
                    head_dim: config.head_dim,
                },
            ),
        );
    } else {
        r.push(copy_of(q, q_gate, q_elems));
    }
    assert(r@ =~= project(config, gpu as nat, num_gpus as nat, layer, attn));
    r
}

fn kv_write_plan(
    config: &ModelConfig,
    gpu: usize,
    attn: usize,
    row: usize,
    k: Buf,
    v: Buf,
) -> (r: Vec<Inst>)
    requires
        attention_forward::dims_fit(config),
        attn < config.attn_layers(),
        row < CHUNK_TOKENS,
    ensures
        r@ == kv_write(
            config,
            gpu as nat,
            attn as nat,
            row as nat,
            k,
            v,
            config.num_kv_heads as nat,
        ),
{
    let (k_offset, v_offset): (usize, usize) = plane_offsets(config, attn);
    let hd: usize = config.head_dim;
    let nkh: usize = config.num_kv_heads;
    let mut r: Vec<Inst> = Vec::new();
    let mut h: usize = 0;
    while h < nkh
        invariant
            h <= nkh,
            nkh == config.num_kv_heads,
            hd == config.head_dim,
            attention_forward::dims_fit(config),
            attn < config.attn_layers(),
            row < CHUNK_TOKENS,
            k_offset == kv_layout::k_plane(config, attn as nat),
            v_offset == kv_layout::v_plane(config, attn as nat),
            v_offset + kv_layout::plane_bytes(config) <= usize::MAX,
            r@ == kv_write(config, gpu as nat, attn as nat, row as nat, k, v, h as nat),
        decreases nkh - h,
    {
        proof {
            arith::lemma_scaled_index(h as int, nkh as int, hd as int);
        }
        let at_row: usize = row_offset(config, h, row);
        r.push(
            copy_of(
                Loc { buf: Buf::KvChunk { gpu }, offset: k_offset + at_row },
                Loc { buf: k, offset: h * hd },
                hd,
            ),
        );
        r.push(
            copy_of(
                Loc { buf: Buf::KvChunk { gpu }, offset: v_offset + at_row },
                Loc { buf: v, offset: h * hd },
                hd,
            ),
        );
        proof {
            assert(r@ =~= kv_write(
                config,
                gpu as nat,
                attn as nat,
                row as nat,
                k,
                v,
                (h + 1) as nat,
            ));
        }
        h += 1;
    }
    r
}

fn attend_plan(
    config: &ModelConfig,
    gpu: usize,
    num_gpus: usize,
    layer: usize,
    attn: usize,
    position: u32,
) -> (r: Inst)
    requires
        split_ok(config, num_gpus as nat),
        gpu < num_gpus,
        attn < config.attn_layers(),
        position < u32::MAX,
    ensures
        r == attend(config, gpu as nat, num_gpus as nat, layer, attn as nat, position),
{
    let (k_offset, v_offset): (usize, usize) = plane_offsets(config, attn);
    let local: usize = config.num_q_heads / num_gpus;
    proof {
        vstd::arithmetic::div_mod::lemma_fundamental_div_mod(
            config.num_q_heads as int,
            num_gpus as int,
        );
        arith::lemma_scaled_index(gpu as int, num_gpus as int, local as int);
    }
    let out = if gpu == 0 {
        at(Buf::AttnOut)
    } else {
        at(Buf::WorkerAttnOut { gpu })
    };
    let q = if gpu == 0 {
        at(Buf::QAttn)
    } else {
        at(Buf::WorkerQ { gpu })
    };
    let k_norm = if config.has_qk_norm {
        Some(Weight::KNorm { layer })
    } else {
        None
    };
    inst(
        local,
        Op::PagedAttention {
            out,
            q,
            gpu,
            q_heads: config.num_q_heads,
            kv_heads: config.num_kv_heads,
            head_dim: config.head_dim,
            seq_len: (position + 1) as usize,
            chunk_tokens: CHUNK_TOKENS,
            rope_dim: config.rope_dim,
            k_offset,
            v_offset,
            k_norm,
            rotary: Some(
                Rotary {
                    eps: config.rms_norm_eps,
                    section0: config.mrope_section.0,
                    section1: config.mrope_section.1,
                },
            ),
            q_head_start: gpu * local,
            local_q_heads: local,
        },
    )
}

fn gpu_batch_plan(
    config: &ModelConfig,
    gpu: usize,
    num_gpus: usize,
    attn: usize,
    position: u32,
    chunk_len: u32,
    distributed: bool,
) -> (r: Vec<Inst>)
    requires
        split_ok(config, num_gpus as nat),
        gpu < num_gpus,
        attn < config.attn_layers(),
        position < u32::MAX,
        chunk_len <= CHUNK_TOKENS,
    ensures
        r@ == gpu_batch(
            config,
            gpu as nat,
            num_gpus as nat,
            attn,
            position,
            row_in(chunk_len),
            distributed,
        ),
{
    let layer: usize = find_nth_layer(&config.layers, LayerType::Attention, attn);
    let row: usize = chunk_len.saturating_sub(1) as usize;
    let mut r: Vec<Inst> = Vec::new();
    if distributed {
        let mut fetch = fetch_normed_plan(config, gpu, attn, position);
        r.append(&mut fetch);
        let mut proj = project_plan(config, gpu, num_gpus, layer, attn);
        r.append(&mut proj);
        let (k, v) = if gpu == 0 {
            (Buf::KAttn, Buf::VAttn)
        } else {
            (Buf::WorkerK { gpu }, Buf::WorkerV { gpu })
        };
        let mut write = kv_write_plan(config, gpu, attn, row, k, v);
        r.append(&mut write);
    } else {
        if gpu > 0 {
            proof {
                lemma_sizes(config, num_gpus as nat);
                law_gather_fills_buffer(config, num_gpus as nat, gpu as nat);
            }
            let q_elems: usize = config.num_q_heads / num_gpus * config.head_dim;
            r.push(
                copy_of(
                    at(Buf::WorkerQ { gpu }),
                    Loc { buf: Buf::QAttn, offset: gpu * q_elems },
                    q_elems,
                ),
            );
        }
        assert(r@ =~= fetch_q(config, gpu as nat, num_gpus as nat));
        let mut write = kv_write_plan(config, gpu, attn, row, Buf::KAttn, Buf::VAttn);
        r.append(&mut write);
    }
    r.push(attend_plan(config, gpu, num_gpus, layer, attn, position));
    assert(r@ =~= gpu_batch(
        config,
        gpu as nat,
        num_gpus as nat,
        attn,
        position,
        row_in(chunk_len),
        distributed,
    ));
    r
}

fn gather_plan(config: &ModelConfig, num_gpus: usize, dst: Buf, gate: bool) -> (r: Vec<Inst>)
    requires
        split_ok(config, num_gpus as nat),
    ensures
        r@ == gather_from(
            local_heads(config, num_gpus as nat) * config.head_dim as nat,
            dst,
            gate,
            num_gpus as nat,
        ),
{
    proof {
        lemma_sizes(config, num_gpus as nat);
    }
    let q_elems: usize = config.num_q_heads / num_gpus * config.head_dim;
    let mut r: Vec<Inst> = Vec::new();
    let mut g: usize = 1;
    while g < num_gpus
        invariant
            1 <= g <= num_gpus,
            split_ok(config, num_gpus as nat),
            q_elems == local_heads(config, num_gpus as nat) * config.head_dim as nat,
            attention_forward::q_len(config) <= usize::MAX,
            r@ == gather_from(q_elems as nat, dst, gate, g as nat),
        decreases num_gpus - g,
    {
        proof {
            law_gather_fills_buffer(config, num_gpus as nat, g as nat);
        }
        let src = if gate {
            at(Buf::WorkerGate { gpu: g })
        } else {
            at(Buf::WorkerAttnOut { gpu: g })
        };
        r.push(copy_of(Loc { buf: dst, offset: g * q_elems }, src, q_elems));
        proof {
            assert(r@ =~= gather_from(q_elems as nat, dst, gate, (g + 1) as nat));
        }
        g += 1;
    }
    r
}

impl HeadParallelPlan {
    pub open spec fn is_plan(
        &self,
        config: &ModelConfig,
        num_gpus: nat,
        attn: usize,
        position: u32,
        chunk_lens: Seq<u32>,
        distributed: bool,
    ) -> bool {
        &&& self.batches@.len() == num_gpus
        &&& forall|g: int|
            0 <= g < num_gpus ==> (#[trigger] self.batches@[g])@ == gpu_batch(
                config,
                g as nat,
                num_gpus,
                attn,
                position,
                row_in(chunk_lens[g]),
                distributed,
            )
        &&& self.gather@ == gather_insts(config, num_gpus, distributed)
    }
}

/// Plans attention number `attn` on all GPUs. `chunk_lens[g]` is the number of
/// tokens in GPU `g`'s current chunk, this token counted.
pub fn dispatch_head_parallel_attention(
    config: &ModelConfig,
    num_gpus: usize,
    attn: usize,
    position: u32,
    chunk_lens: &[u32],
    distributed: bool,
) -> (r: HeadParallelPlan)
    requires
        split_ok(config, num_gpus as nat),
        attn < config.attn_layers(),
        position < u32::MAX,
        chunk_lens@.len() >= num_gpus,
        forall|g: int| 0 <= g < num_gpus ==> (#[trigger] chunk_lens@[g]) <= CHUNK_TOKENS,
        forall|g: int|
            0 <= g < num_gpus ==> gpu_batch(
                config,
                g as nat,
                num_gpus as nat,
                attn,
                position,
                row_in(#[trigger] chunk_lens@[g]),
                distributed,
            ).len() <= MAX_BATCH_INSTRUCTIONS,
        gather_insts(config, num_gpus as nat, distributed).len() <= MAX_BATCH_INSTRUCTIONS,
    ensures
        r.is_plan(config, num_gpus as nat, attn, position, chunk_lens@, distributed),
{
    let mut batches: Vec<Vec<Inst>> = Vec::new();
    let mut g: usize = 0;
    while g < num_gpus
        invariant
            g <= num_gpus,
            split_ok(config, num_gpus as nat),
            attn < config.attn_layers(),
            position < u32::MAX,
            chunk_lens@.len() >= num_gpus,
            forall|j: int| 0 <= j < num_gpus ==> (#[trigger] chunk_lens@[j]) <= CHUNK_TOKENS,
            batches@.len() == g,
            forall|j: int|
                0 <= j < g ==> (#[trigger] batches@[j])@ == gpu_batch(
                    config,
                    j as nat,
                    num_gpus as nat,
                    attn,
                    position,
                    row_in(chunk_lens@[j]),
                    distributed,
                ),
        decreases num_gpus - g,
    {
        assert(chunk_lens@[g as int] <= CHUNK_TOKENS);
        batches.push(
            gpu_batch_plan(config, g, num_gpus, attn, position, chunk_lens[g], distributed),
        );
        g += 1;
    }
    let mut gather = gather_plan(config, num_gpus, Buf::AttnOut, false);
    if distributed && config.has_output_gate {
        let mut gates = gather_plan(config, num_gpus, Buf::GateAttn, true);
        gather.append(&mut gates);
    }
    assert(gather@ =~= gather_insts(config, num_gpus as nat, distributed));
    HeadParallelPlan { batches, gather }
}

/// How long a GPU's batch is: two writes per KV head, the attention itself, and
/// what precedes them. With up to 125 KV heads no batch is ever too long.
pub proof fn law_batch_length(
    config: &ModelConfig,
    gpu: nat,
    num_gpus: nat,
    attn: usize,
    position: u32,
    row: nat,
    distributed: bool,
)
    ensures
        ({
            let fetch: nat = if gpu == 0 { 0 } else { 1 };
            let work: nat = if distributed { 4 } else { 0 };
            gpu_batch(config, gpu, num_gpus, attn, position, row, distributed).len() == fetch + work
                + 2 * config.num_kv_heads + 1
        }),
        config.num_kv_heads <= 125 ==> gpu_batch(
            config,
            gpu,
            num_gpus,
            attn,
            position,
            row,
            distributed,
        ).len() <= MAX_BATCH_INSTRUCTIONS,
{
    let nkh = config.num_kv_heads as nat;
    lemma_kv_write_len(config, gpu, attn as nat, row, k_buf(gpu), v_buf(gpu), nkh);
    lemma_kv_write_len(config, gpu, attn as nat, row, Buf::KAttn, Buf::VAttn, nkh);
}

proof fn lemma_kv_write_len(
    config: &ModelConfig,
    gpu: nat,
    attn: nat,
    row: nat,
    k: Buf,
    v: Buf,
    heads: nat,
)
    ensures
        kv_write(config, gpu, attn, row, k, v, heads).len() == 2 * heads,
    decreases heads,
{
    if heads > 0 {
        lemma_kv_write_len(config, gpu, attn, row, k, v, (heads - 1) as nat);
    }
}

} // verus!
