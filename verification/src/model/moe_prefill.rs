//! Plans of a prefill batch through an expert layer whose experts are spread over
//! GPUs: GPU 0 routes every token, the workers and GPU 0 run their experts, and
//! GPU 0 sums the partial results.

use vstd::prelude::*;
use crate::arith;
use crate::model::moe_forward;
use crate::model::moe_forward::{gate_mode, MoeLayer};
use crate::moe_p2p::{MAX_ACTIVE_EXPERTS, MAX_PREFILL_BATCH};
use crate::ops;
use crate::ops::{
    all_of, at, blocks_for, copy_of, inst, inst_own_grid, linear_of, scale_add_of, Buf, Inst, Loc,
    Op, Signal, SignalSlot, WLoc, Weight, ONE_F32,
};

verus! {

/// Where GPU 0 keeps its experts of one layer.
pub struct LocalExperts {
    /// Slot of each expert that lives on GPU 0.
    pub slot_map: Vec<Option<usize>>,
    pub gate_up_expert_stride: usize,
    pub down_expert_stride: usize,
    pub gate_up_row_stride: usize,
}

impl LocalExperts {
    /// The map covers every expert and every local expert is addressable.
    pub open spec fn valid(&self, m: &MoeLayer) -> bool {
        &&& self.slot_map@.len() == m.num_experts
        &&& m.expert_intermediate_size * self.gate_up_row_stride <= usize::MAX
        &&& forall|e: int|
            0 <= e < self.slot_map@.len() ==> (#[trigger] self.slot_map@[e] matches Some(s) ==> {
                &&& s * self.gate_up_expert_stride + m.expert_intermediate_size
                    * self.gate_up_row_stride <= usize::MAX
                &&& s * self.down_expert_stride <= usize::MAX
            })
    }
}

/// A remote expert pass on one worker.
#[derive(Clone, Copy, Debug, PartialEq, Eq, Structural)]
pub struct WorkerCall {
    pub gpu: usize,
    pub layer: usize,
    /// Where the token's activation starts in the staging buffer.
    pub activation_offset: usize,
    pub k: usize,
    pub expert_intermediate_size: usize,
    pub hidden_size: usize,
    pub gate_up_in_dim: usize,
    pub has_gate: bool,
    pub relu_sq: bool,
}

/// A copy of a worker's result into the output slots.
#[derive(Clone, Copy, Debug, PartialEq, Eq, Structural)]
pub struct ReadBack {
    pub gpu: usize,
    /// Where the worker's slot starts, in elements.
    pub slot_offset: usize,
    pub bytes: usize,
}

/// One token's turn on the workers.
pub struct WorkerRound {
    pub expert_ids: Vec<i32>,
    pub expert_weights: Vec<u32>,
    pub calls: Vec<WorkerCall>,
    pub readbacks: Vec<ReadBack>,
}

/// Everything that follows routing.
pub struct MoePrefillPlan {
    /// Per token, the work of the other GPUs.
    pub rounds: Vec<WorkerRound>,
    /// Per token, the local experts of GPU 0.
    pub local: Vec<Vec<Inst>>,
    /// Per token, the sum over GPUs, shared expert and residual.
    pub combine: Vec<Vec<Inst>>,
}

/// The batch fits the fixed buffers and its extents are addressable.
pub open spec fn batch_ok(m: &MoeLayer, n: nat, num_gpus: nat) -> bool {
    &&& m.valid()
    &&& n <= MAX_PREFILL_BATCH
    &&& m.num_active <= MAX_ACTIVE_EXPERTS
    &&& num_gpus > 0
    &&& n * m.hidden_size <= usize::MAX
    &&& n * m.gate_up_in_dim <= usize::MAX
    &&& n * num_gpus <= usize::MAX
    &&& n * num_gpus * m.hidden_size <= usize::MAX
    &&& m.hidden_size * 4 <= usize::MAX
}

/// Routing of every token, at a stride of `MAX_ACTIVE_EXPERTS`.
pub open spec fn batch_routing_ok(m: &MoeLayer, ids: Seq<i32>, weights: Seq<u32>, n: nat) -> bool {
    &&& ids.len() >= n * MAX_ACTIVE_EXPERTS
    &&& weights.len() >= n * MAX_ACTIVE_EXPERTS
    &&& forall|t: int, j: int|
        0 <= t < n && 0 <= j < m.num_active ==> 0 <= #[trigger] ids[t * MAX_ACTIVE_EXPERTS + j]
            < m.num_experts
}

// ---- routing ----

/// Where token `t`'s normalised activation is kept on GPU 0.
pub open spec fn normed_slot(m: &MoeLayer, t: nat) -> Loc {
    Loc { buf: Buf::PrefillMoeNormed, offset: (t * m.gate_up_in_dim as nat) as usize }
}

/// Normalises and routes token `t`.
pub open spec fn route_token(m: &MoeLayer, t: nat) -> Seq<Inst> {
    let (mode, scaling) = moe_forward::gate_params(m.gate_type);
    let input = Loc { buf: Buf::PrefillHidden, offset: (t * m.hidden_size as nat) as usize };
    let norm_out = if m.has_fc1 {
        ops::start(Buf::Normed)
    } else {
        normed_slot(m, t)
    };
    let norm = ops::plain(
        1,
        Op::RmsNorm {
            out: norm_out,
            input,
            weight: m.norm(),
            dim: m.hidden_size,
            eps: m.eps,
            one_plus_w: m.one_plus_w,
        },
    );
    let project = if m.has_fc1 {
        seq![
            ops::linear_inst(
                normed_slot(m, t),
                ops::whole(Weight::Fc1Latent { layer: m.layer }),
                ops::start(Buf::Normed),
                m.gate_up_in_dim as nat,
                m.hidden_size as nat,
            ),
        ]
    } else {
        Seq::empty()
    };
    seq![norm] + project + seq![
        ops::linear_inst(
            ops::start(Buf::MoeScores),
            ops::whole(Weight::Router { layer: m.layer }),
            normed_slot(m, t),
            m.num_experts as nat,
            m.hidden_size as nat,
        ),
        ops::own_grid(
            Op::MoeGate {
                scores: ops::start(Buf::MoeScores),
                ids: Loc {
                    buf: Buf::PerTokenExpertIds,
                    offset: (t * MAX_ACTIVE_EXPERTS as nat) as usize,
                },
                weights: Loc {
                    buf: Buf::PerTokenExpertWeights,
                    offset: (t * MAX_ACTIVE_EXPERTS as nat) as usize,
                },
                bias: m.bias(),
                num_experts: m.num_experts,
                k: m.num_active,
                mode,
                scaling,
            },
        ),
    ]
}

/// Normalises and routes the first `n` tokens.
pub open spec fn route_tokens(m: &MoeLayer, n: nat) -> Seq<Inst>
    decreases n,
{
    if n == 0 {
        Seq::empty()
    } else {
        route_tokens(m, (n - 1) as nat) + route_token(m, (n - 1) as nat)
    }
}

/// Stages the activations for the workers, with a signal that drains the copy and
/// a trailing no-op that holds the batch until it has drained.
pub open spec fn stage_insts(m: &MoeLayer, n: nat) -> Seq<Inst> {
    let total = n * m.gate_up_in_dim as nat;
    seq![
        Inst {
            signal: Some(Signal { slot: SignalSlot::PrefillDrain, value: 1 }),
            ..ops::copy_inst(
                ops::start(Buf::ActivationStaging),
                ops::start(Buf::PrefillMoeNormed),
                total,
            )
        },
        ops::plain(1, Op::Nop),
    ]
}

fn route_token_plan(m: &MoeLayer, t: usize, n: usize) -> (r: Vec<Inst>)
    requires
        m.valid(),
        t < n <= MAX_PREFILL_BATCH,
        n * m.hidden_size <= usize::MAX,
        n * m.gate_up_in_dim <= usize::MAX,
    ensures
        r@ == route_token(m, t as nat),
{
    proof {
        arith::lemma_scaled_index(t as int, n as int, m.hidden_size as int);
        arith::lemma_scaled_index(t as int, n as int, m.gate_up_in_dim as int);
    }
    let (mode, scaling): (u32, u32) = gate_mode(m.gate_type);
    let input = Loc { buf: Buf::PrefillHidden, offset: t * m.hidden_size };
    let slot = Loc { buf: Buf::PrefillMoeNormed, offset: t * m.gate_up_in_dim };
    let norm_out = if m.has_fc1 {
        at(Buf::Normed)
    } else {
        slot
    };
    let mut r: Vec<Inst> = Vec::new();
    r.push(
        inst(
            1,
            Op::RmsNorm {
                out: norm_out,
                input,
                weight: m.norm_weight(),
                dim: m.hidden_size,
                eps: m.eps,
                one_plus_w: m.one_plus_w,
            },
        ),
    );
    if m.has_fc1 {
        r.push(
            linear_of(
                slot,
                all_of(Weight::Fc1Latent { layer: m.layer }),
                at(Buf::Normed),
                m.gate_up_in_dim,
                m.hidden_size,
            ),
        );
    }
    r.push(
        linear_of(
            at(Buf::MoeScores),
            all_of(Weight::Router { layer: m.layer }),
            slot,
            m.num_experts,
            m.hidden_size,
        ),
    );
    r.push(
        inst_own_grid(
            Op::MoeGate {
                scores: at(Buf::MoeScores),
                ids: Loc { buf: Buf::PerTokenExpertIds, offset: t * MAX_ACTIVE_EXPERTS },
                weights: Loc { buf: Buf::PerTokenExpertWeights, offset: t * MAX_ACTIVE_EXPERTS },
                bias: m.score_bias(),
                num_experts: m.num_experts,
                k: m.num_active,
                mode,
                scaling,
            },
        ),
    );
    assert(r@ =~= route_token(m, t as nat));
    r
}

/// Plans the routing of a whole prefill batch and the staging of its activations.
pub fn moe_prefill_route(m: &MoeLayer, n: usize) -> (r: Vec<Inst>)
    requires
        m.valid(),
        n <= MAX_PREFILL_BATCH,
        m.num_active <= MAX_ACTIVE_EXPERTS,
        n * m.hidden_size <= usize::MAX,
        n * m.gate_up_in_dim <= usize::MAX,
    ensures
        r@ == route_tokens(m, n as nat) + stage_insts(m, n as nat),
{
    let mut r: Vec<Inst> = Vec::new();
    let mut t: usize = 0;
    while t < n
        invariant
            t <= n,
            m.valid(),
            n <= MAX_PREFILL_BATCH,
            n * m.hidden_size <= usize::MAX,
            n * m.gate_up_in_dim <= usize::MAX,
            r@ == route_tokens(m, t as nat),
        decreases n - t,
    {
        let mut one: Vec<Inst> = route_token_plan(m, t, n);
        r.append(&mut one);
        t += 1;
    }
    let total: usize = n * m.gate_up_in_dim;
    r.push(
        Inst {
            signal: Some(Signal { slot: SignalSlot::PrefillDrain, value: 1 }),
            ..copy_of(at(Buf::ActivationStaging), at(Buf::PrefillMoeNormed), total)
        },
    );
    r.push(inst(1, Op::Nop));
    assert(r@ =~= route_tokens(m, n as nat) + stage_insts(m, n as nat));
    r
}

// ---- worker rounds ----

/// The routing row of token `t`.
pub open spec fn routing_row<T>(all: Seq<T>, t: nat, k: nat) -> Seq<T> {
    all.subrange((t * MAX_ACTIVE_EXPERTS as nat) as int, (t * MAX_ACTIVE_EXPERTS as nat + k) as int)
}

/// One call per worker for token `t`; worker `w` is GPU `w + 1`.
pub open spec fn worker_calls(m: &MoeLayer, t: nat, num_gpus: nat) -> Seq<WorkerCall> {
    Seq::new(
        (num_gpus - 1) as nat,
        |w: int|
            WorkerCall {
                gpu: (w + 1) as usize,
                layer: m.layer,
                activation_offset: (t * m.gate_up_in_dim as nat) as usize,
                k: m.num_active,
                expert_intermediate_size: m.expert_intermediate_size,
                hidden_size: m.hidden_size,
                gate_up_in_dim: m.gate_up_in_dim,
                has_gate: m.has_gate_proj,
                relu_sq: !m.has_gate_proj,
            },
    )
}

/// Where the partial sum of `gpu` for token `t` starts in the output slots.
pub open spec fn output_slot(m: &MoeLayer, t: nat, num_gpus: nat, gpu: nat) -> nat {
    (t * num_gpus + gpu) * m.hidden_size as nat
}

/// One read-back per worker for token `t`.
pub open spec fn worker_readbacks(m: &MoeLayer, t: nat, num_gpus: nat) -> Seq<ReadBack> {
    Seq::new(
        (num_gpus - 1) as nat,
        |w: int|
            ReadBack {
                gpu: (w + 1) as usize,
                slot_offset: output_slot(m, t, num_gpus, (w + 1) as nat) as usize,
                bytes: (m.hidden_size * 4) as usize,
            },
    )
}

/// Output slots of a batch are addressable.
proof fn lemma_output_slot(m: &MoeLayer, t: nat, n: nat, num_gpus: nat, gpu: nat)
    requires
        t < n,
        gpu < num_gpus,
    ensures
        t * num_gpus + gpu < n * num_gpus,
        output_slot(m, t, num_gpus, gpu) + m.hidden_size <= n * num_gpus * m.hidden_size,
{
    arith::lemma_scaled_index(t as int, n as int, num_gpus as int);
    arith::lemma_scaled_index(
        (t * num_gpus + gpu) as int,
        (n * num_gpus) as int,
        m.hidden_size as int,
    );
}

/// Output slots of different tokens or different GPUs never overlap.
pub proof fn law_output_slots_disjoint(
    m: &MoeLayer,
    num_gpus: nat,
    t1: nat,
    g1: nat,
    t2: nat,
    g2: nat,
)
    requires
        g1 < num_gpus,
        g2 < num_gpus,
        (t1, g1) != (t2, g2),
    ensures
        ({
            let a = output_slot(m, t1, num_gpus, g1);
            let b = output_slot(m, t2, num_gpus, g2);
            a + m.hidden_size <= b || b + m.hidden_size <= a
        }),
{
    let i = t1 * num_gpus + g1;
    let j = t2 * num_gpus + g2;
    assert(i != j) by {
        if t1 < t2 {
            arith::lemma_scaled_index(t1 as int, t2 as int, num_gpus as int);
        } else if t2 < t1 {
            arith::lemma_scaled_index(t2 as int, t1 as int, num_gpus as int);
        }
    }
    if i < j {
        arith::lemma_scaled_index(i as int, j as int, m.hidden_size as int);
    } else {
        arith::lemma_scaled_index(j as int, i as int, m.hidden_size as int);
    }
}

impl WorkerRound {
    /// The round of token `t`.
    pub open spec fn is_round(
        &self,
        m: &MoeLayer,
        ids: Seq<i32>,
        weights: Seq<u32>,
        t: nat,
        num_gpus: nat,
    ) -> bool {
        &&& self.expert_ids@ == routing_row(ids, t, m.num_active as nat)
        &&& self.expert_weights@ == routing_row(weights, t, m.num_active as nat)
        &&& self.calls@ == worker_calls(m, t, num_gpus)
        &&& self.readbacks@ == worker_readbacks(m, t, num_gpus)
    }
}

fn worker_round(
    m: &MoeLayer,
    ids: &[i32],
    weights: &[u32],
    t: usize,
    n: usize,
    num_gpus: usize,
) -> (r: WorkerRound)
    requires
        batch_ok(m, n as nat, num_gpus as nat),
        batch_routing_ok(m, ids@, weights@, n as nat),
        t < n,
    ensures
        r.is_round(m, ids@, weights@, t as nat, num_gpus as nat),
{
    let k: usize = m.num_active;
    let base: usize = t * MAX_ACTIVE_EXPERTS;
    let mut expert_ids: Vec<i32> = Vec::new();
    let mut expert_weights: Vec<u32> = Vec::new();
    let mut j: usize = 0;
    while j < k
        invariant
            j <= k,
            k == m.num_active,
            k <= MAX_ACTIVE_EXPERTS,
            t < n <= MAX_PREFILL_BATCH,
            base == t * MAX_ACTIVE_EXPERTS,
            ids@.len() >= n * MAX_ACTIVE_EXPERTS,
            weights@.len() >= n * MAX_ACTIVE_EXPERTS,
            expert_ids@ == ids@.subrange(base as int, base + j),
            expert_weights@ == weights@.subrange(base as int, base + j),
        decreases k - j,
    {
        expert_ids.push(ids[base + j]);
        expert_weights.push(weights[base + j]);
        proof {
            assert(expert_ids@ =~= ids@.subrange(base as int, base + j + 1));
            assert(expert_weights@ =~= weights@.subrange(base as int, base + j + 1));
        }
        j += 1;
    }
    proof {
        arith::lemma_scaled_index(t as int, n as int, m.gate_up_in_dim as int);
    }
    let activation_offset: usize = t * m.gate_up_in_dim;
    let mut calls: Vec<WorkerCall> = Vec::new();
    let mut readbacks: Vec<ReadBack> = Vec::new();
    let mut gpu: usize = 1;
    while gpu < num_gpus
        invariant
            1 <= gpu <= num_gpus,
            batch_ok(m, n as nat, num_gpus as nat),
            t < n,
            k == m.num_active,
            activation_offset == t * m.gate_up_in_dim,
            calls@.len() == gpu - 1,
            readbacks@.len() == gpu - 1,
            forall|w: int|
                0 <= w < gpu - 1 ==> calls@[w] == worker_calls(m, t as nat, num_gpus as nat)[w],
            forall|w: int|
                0 <= w < gpu - 1 ==> readbacks@[w] == worker_readbacks(
                    m,
                    t as nat,
                    num_gpus as nat,
                )[w],
        decreases num_gpus - gpu,
    {
        proof {
            lemma_output_slot(m, t as nat, n as nat, num_gpus as nat, gpu as nat);
            arith::lemma_scaled_index(t as int, n as int, num_gpus as int);
        }
        calls.push(
            WorkerCall {
                gpu,
                layer: m.layer,
                activation_offset,
                k,
                expert_intermediate_size: m.expert_intermediate_size,
                hidden_size: m.hidden_size,
                gate_up_in_dim: m.gate_up_in_dim,
                has_gate: m.has_gate_proj,
                relu_sq: !m.has_gate_proj,
            },
        );
        readbacks.push(
            ReadBack {
                gpu,
                slot_offset: (t * num_gpus + gpu) * m.hidden_size,
                bytes: m.hidden_size * 4,
            },
        );
        gpu += 1;
    }
    assert(calls@ =~= worker_calls(m, t as nat, num_gpus as nat));
    assert(readbacks@ =~= worker_readbacks(m, t as nat, num_gpus as nat));
    WorkerRound { expert_ids, expert_weights, calls, readbacks }
}

// ---- local experts ----

/// One expert of GPU 0 in local slot `slot`, weighted and added to the sum.
pub open spec fn local_expert(
    m: &MoeLayer,
    local: &LocalExperts,
    t: nat,
    slot: nat,
    weight: u32,
) -> Seq<Inst> {
    let eis = m.expert_intermediate_size as nat;
    let latent = m.gate_up_in_dim as nat;
    let gu = Weight::LocalExpertGateUp { layer: m.layer };
    let gu_offset = slot * local.gate_up_expert_stride as nat;
    let first = if m.has_gate_proj {
        seq![
            ops::linear_inst(
                ops::start(Buf::MoeExpertGate),
                WLoc { weight: gu, byte_offset: gu_offset as usize },
                normed_slot(m, t),
                eis,
                latent,
            ),
            ops::linear_inst(
                ops::start(Buf::MoeExpertUp),
                WLoc {
                    weight: gu,
                    byte_offset: (gu_offset + eis * local.gate_up_row_stride as nat) as usize,
                },
                normed_slot(m, t),
                eis,
                latent,
            ),
            ops::plain(
                ops::blocks(eis),
                Op::SiluMul {
                    out: ops::start(Buf::MoeExpertAct),
                    gate: ops::start(Buf::MoeExpertGate),
                    up: ops::start(Buf::MoeExpertUp),
                    len: m.expert_intermediate_size,
                },
            ),
        ]
    } else {
        seq![
            ops::linear_inst(
                ops::start(Buf::MoeExpertUp),
                WLoc { weight: gu, byte_offset: gu_offset as usize },
                normed_slot(m, t),
                eis,
                latent,
            ),
            ops::plain(
                ops::blocks(eis),
                Op::ReluSq {
                    out: ops::start(Buf::MoeExpertAct),
                    input: ops::start(Buf::MoeExpertUp),
                    len: m.expert_intermediate_size,
                },
            ),
        ]
    };
    first + seq![
        ops::linear_inst(
            ops::start(Buf::MoeExpertOut),
            WLoc {
                weight: Weight::LocalExpertDown { layer: m.layer },
                byte_offset: (slot * local.down_expert_stride as nat) as usize,
            },
            ops::start(Buf::MoeExpertAct),
            latent,
            eis,
        ),
        ops::scale_add_inst(
            ops::start(Buf::FfnDown),
            ops::start(Buf::MoeExpertOut),
            weight,
            latent,
        ),
    ]
}

/// The routed experts of token `t`, first `count`, that live on GPU 0.
pub open spec fn local_experts(
    m: &MoeLayer,
    local: &LocalExperts,
    ids: Seq<i32>,
    weights: Seq<u32>,
    t: nat,
    count: nat,
) -> Seq<Inst>
    decreases count,
{
    if count == 0 {
        Seq::empty()
    } else {
        let at = t * MAX_ACTIVE_EXPERTS + (count - 1);
        let rest = local_experts(m, local, ids, weights, t, (count - 1) as nat);
        match local.slot_map@[ids[at] as int] {
            Some(slot) => rest + local_expert(m, local, t, slot as nat, weights[at]),
            None => rest,
        }
    }
}

/// Token `t` on GPU 0: clear the sum, run the local experts, store the partial
/// result in GPU 0's output slot.
pub open spec fn local_token(
    m: &MoeLayer,
    local: &LocalExperts,
    ids: Seq<i32>,
    weights: Seq<u32>,
    t: nat,
    num_gpus: nat,
) -> Seq<Inst> {
    let latent = m.gate_up_in_dim as nat;
    seq![ops::copy_inst(ops::start(Buf::FfnDown), ops::start(Buf::ZeroBuffer), latent)]
        + local_experts(m, local, ids, weights, t, m.num_active as nat) + seq![
        ops::copy_inst(
            Loc { buf: Buf::OutputSlots, offset: output_slot(m, t, num_gpus, 0) as usize },
            ops::start(Buf::FfnDown),
            latent,
        ),
    ]
}

fn local_expert_plan(
    m: &MoeLayer,
    local: &LocalExperts,
    input: Loc,
    slot: usize,
    weight: u32,
    Ghost(t): Ghost<nat>,
) -> (r: Vec<Inst>)
    requires
        input == normed_slot(m, t),
        m.expert_intermediate_size * local.gate_up_row_stride <= usize::MAX,
        slot * local.gate_up_expert_stride + m.expert_intermediate_size * local.gate_up_row_stride
            <= usize::MAX,
        slot * local.down_expert_stride <= usize::MAX,
    ensures
        r@ == local_expert(m, local, t, slot as nat, weight),
{
    proof {
        assert(m.expert_intermediate_size * local.gate_up_row_stride >= 0) by (nonlinear_arith)
            requires
                m.expert_intermediate_size >= 0,
                local.gate_up_row_stride >= 0,
        ;
    }
    let eis: usize = m.expert_intermediate_size;
    let latent: usize = m.gate_up_in_dim;
    let gu = Weight::LocalExpertGateUp { layer: m.layer };
    let gu_offset: usize = slot * local.gate_up_expert_stride;
    let dn_offset: usize = slot * local.down_expert_stride;
    let mut r: Vec<Inst> = Vec::new();
    if m.has_gate_proj {
        let up_offset: usize = gu_offset + eis * local.gate_up_row_stride;
        r.push(
            linear_of(
                at(Buf::MoeExpertGate),
                WLoc { weight: gu, byte_offset: gu_offset },
                input,
                eis,
                latent,
            ),
        );
        r.push(
            linear_of(
                at(Buf::MoeExpertUp),
                WLoc { weight: gu, byte_offset: up_offset },
                input,
                eis,
                latent,
            ),
        );
        r.push(
            inst(
                blocks_for(eis),
                Op::SiluMul {
                    out: at(Buf::MoeExpertAct),
                    gate: at(Buf::MoeExpertGate),
                    up: at(Buf::MoeExpertUp),
                    len: eis,
                },
            ),
        );
    } else {
        r.push(
            linear_of(
                at(Buf::MoeExpertUp),
                WLoc { weight: gu, byte_offset: gu_offset },
                input,
                eis,
                latent,
            ),
        );
        r.push(
            inst(
                blocks_for(eis),
                Op::ReluSq { out: at(Buf::MoeExpertAct), input: at(Buf::MoeExpertUp), len: eis },
            ),
        );
    }
    r.push(
        linear_of(
            at(Buf::MoeExpertOut),
            WLoc { weight: Weight::LocalExpertDown { layer: m.layer }, byte_offset: dn_offset },
            at(Buf::MoeExpertAct),
            latent,
            eis,
        ),
    );
    r.push(scale_add_of(at(Buf::FfnDown), at(Buf::MoeExpertOut), weight, latent));
    assert(r@ =~= local_expert(m, local, t, slot as nat, weight));
    r
}

fn local_token_plan(
    m: &MoeLayer,
    local: &LocalExperts,
    ids: &[i32],
    weights: &[u32],
    t: usize,
    n: usize,
    num_gpus: usize,
) -> (r: Vec<Inst>)
    requires
        batch_ok(m, n as nat, num_gpus as nat),
        local.valid(m),
        batch_routing_ok(m, ids@, weights@, n as nat),
        t < n,
    ensures
        r@ == local_token(m, local, ids@, weights@, t as nat, num_gpus as nat),
{
    let latent: usize = m.gate_up_in_dim;
    proof {
        arith::lemma_scaled_index(t as int, n as int, latent as int);
        lemma_output_slot(m, t as nat, n as nat, num_gpus as nat, 0);
        arith::lemma_scaled_index(t as int, n as int, num_gpus as int);
    }
    let input = Loc { buf: Buf::PrefillMoeNormed, offset: t * latent };
    let mut r: Vec<Inst> = Vec::new();
    r.push(copy_of(at(Buf::FfnDown), at(Buf::ZeroBuffer), latent));
    let ghost head = r@;
    let k: usize = m.num_active;
    let base: usize = t * MAX_ACTIVE_EXPERTS;
    let mut j: usize = 0;
    assert(r@ =~= head + local_experts(m, local, ids@, weights@, t as nat, 0));
    while j < k
        invariant
            j <= k,
            k == m.num_active,
            batch_ok(m, n as nat, num_gpus as nat),
            local.valid(m),
            batch_routing_ok(m, ids@, weights@, n as nat),
            t < n,
            base == t * MAX_ACTIVE_EXPERTS,
            input == normed_slot(m, t as nat),
            r@ == head + local_experts(m, local, ids@, weights@, t as nat, j as nat),
        decreases k - j,
    {
        assert(0 <= ids@[t * MAX_ACTIVE_EXPERTS + j] < m.num_experts);
        let eid: usize = ids[base + j] as usize;
        let ew: u32 = weights[base + j];
        let ghost before = r@;
        match local.slot_map[eid] {
            Some(slot) => {
                assert(local.slot_map@[eid as int] == Some(slot));
                let mut one: Vec<Inst> = local_expert_plan(
                    m,
                    local,
                    input,
                    slot,
                    ew,
                    Ghost(t as nat),
                );
                r.append(&mut one);
            },
            None => {},
        }
        proof {
            assert(r@ =~= head + local_experts(
                m,
                local,
                ids@,
                weights@,
                t as nat,
                (j + 1) as nat,
            ));
        }
        j += 1;
    }
    let slot_offset: usize = t * num_gpus * m.hidden_size;
    r.push(
        copy_of(
            Loc { buf: Buf::OutputSlots, offset: slot_offset },
            at(Buf::FfnDown),
            latent,
        ),
    );
    assert(r@ =~= local_token(m, local, ids@, weights@, t as nat, num_gpus as nat));
    r
}

// ---- combination ----

/// Adds the output slots of the first `count` GPUs to the sum.
pub open spec fn sum_slots(m: &MoeLayer, t: nat, num_gpus: nat, count: nat) -> Seq<Inst>
    decreases count,
{
    if count == 0 {
        Seq::empty()
    } else {
        sum_slots(m, t, num_gpus, (count - 1) as nat) + seq![
            ops::copy_inst(
                ops::start(Buf::MoeExpertOut),
                Loc {
                    buf: Buf::OutputSlots,
                    offset: output_slot(m, t, num_gpus, (count - 1) as nat) as usize,
                },
                m.gate_up_in_dim as nat,
            ),
            ops::scale_add_inst(
                ops::start(Buf::FfnDown),
                ops::start(Buf::MoeExpertOut),
                ONE_F32,
                m.gate_up_in_dim as nat,
            ),
        ]
    }
}

/// The shared expert on the recomputed normalised hidden state.
pub open spec fn shared_insts(m: &MoeLayer) -> Seq<Inst> {
    let hs = m.hidden_size as nat;
    let width = m.shared_width() as nat;
    if !m.has_shared {
        Seq::empty()
    } else {
        let act = if m.has_gate_proj {
            seq![
                ops::linear_inst(
                    ops::start(Buf::MoeExpertGate),
                    ops::whole(Weight::SharedGateProj { layer: m.layer }),
                    ops::start(Buf::Normed),
                    width,
                    hs,
                ),
                ops::plain(
                    ops::blocks(width),
                    Op::SiluMul {
                        out: ops::start(Buf::MoeExpertAct),
                        gate: ops::start(Buf::MoeExpertGate),
                        up: ops::start(Buf::MoeExpertUp),
                        len: m.shared_width(),
                    },
                ),
            ]
        } else {
            seq![
                ops::plain(
                    ops::blocks(width),
                    Op::ReluSq {
                        out: ops::start(Buf::MoeExpertAct),
                        input: ops::start(Buf::MoeExpertUp),
                        len: m.shared_width(),
                    },
                ),
            ]
        };
        let combine = if m.has_shared_gate {
            ops::own_grid(
                Op::DotSigmoidScaleAdd {
                    dst: ops::start(Buf::FfnDown),
                    src: ops::start(Buf::MoeExpertOut),
                    input: ops::start(Buf::Normed),
                    weight: Weight::SharedExpertGate { layer: m.layer },
                    len: m.hidden_size,
                },
            )
        } else {
            ops::scale_add_inst(
                ops::start(Buf::FfnDown),
                ops::start(Buf::MoeExpertOut),
                ONE_F32,
                hs,
            )
        };
        seq![
            ops::plain(
                1,
                Op::RmsNorm {
                    out: ops::start(Buf::Normed),
                    input: ops::start(Buf::Hidden),
                    weight: m.norm(),
                    dim: m.hidden_size,
                    eps: m.eps,
                    one_plus_w: m.one_plus_w,
                },
            ),
            ops::linear_inst(
                ops::start(Buf::MoeExpertUp),
                ops::whole(Weight::SharedUp { layer: m.layer }),
                ops::start(Buf::Normed),
                width,
                hs,
            ),
        ] + act + seq![
            ops::linear_inst(
                ops::start(Buf::MoeExpertOut),
                ops::whole(Weight::SharedDown { layer: m.layer }),
                ops::start(Buf::MoeExpertAct),
                hs,
                width,
            ),
            combine,
        ]
    }
}

/// Token `t`'s final sum: all output slots, output projection, shared expert and
/// residual, written back over the token's hidden state.
pub open spec fn combine_token(m: &MoeLayer, t: nat, num_gpus: nat) -> Seq<Inst> {
    let hs = m.hidden_size as nat;
    let latent = m.gate_up_in_dim as nat;
    let token = Loc { buf: Buf::PrefillHidden, offset: (t * hs) as usize };
    let fc2 = if m.has_fc2 {
        seq![
            ops::copy_inst(ops::start(Buf::MoeExpertOut), ops::start(Buf::FfnDown), latent),
            ops::linear_inst(
                ops::start(Buf::FfnDown),
                ops::whole(Weight::Fc2Latent { layer: m.layer }),
                ops::start(Buf::MoeExpertOut),
                hs,
                latent,
            ),
        ]
    } else {
        Seq::empty()
    };
    seq![
        ops::copy_inst(ops::start(Buf::Hidden), token, hs),
        ops::copy_inst(ops::start(Buf::Residual), ops::start(Buf::Hidden), hs),
        ops::copy_inst(ops::start(Buf::FfnDown), ops::start(Buf::ZeroBuffer), hs),
    ] + sum_slots(m, t, num_gpus, num_gpus) + fc2 + shared_insts(m) + seq![
        ops::plain(
            ops::blocks(hs),
            Op::ResidualAdd {
                out: ops::start(Buf::Hidden),
                a: ops::start(Buf::Residual),
                b: ops::start(Buf::FfnDown),
                len: m.hidden_size,
            },
        ),
        ops::copy_inst(token, ops::start(Buf::Hidden), hs),
    ]
}

fn shared_plan(m: &MoeLayer) -> (r: Vec<Inst>)
    ensures
        r@ == shared_insts(m),
{
    let mut r: Vec<Inst> = Vec::new();
    if m.has_shared {
        let hs: usize = m.hidden_size;
        let se_is: usize = m.shared_size();
        r.push(
            inst(
                1,
                Op::RmsNorm {
                    out: at(Buf::Normed),
                    input: at(Buf::Hidden),
                    weight: m.norm_weight(),
                    dim: hs,
                    eps: m.eps,
                    one_plus_w: m.one_plus_w,
                },
            ),
        );
        r.push(
            linear_of(
                at(Buf::MoeExpertUp),
                all_of(Weight::SharedUp { layer: m.layer }),
                at(Buf::Normed),
                se_is,
                hs,
            ),
        );
        if m.has_gate_proj {
            r.push(
                linear_of(
                    at(Buf::MoeExpertGate),
                    all_of(Weight::SharedGateProj { layer: m.layer }),
                    at(Buf::Normed),
                    se_is,
                    hs,
                ),
            );
            r.push(
                inst(
                    blocks_for(se_is),
                    Op::SiluMul {
                        out: at(Buf::MoeExpertAct),
                        gate: at(Buf::MoeExpertGate),
                        up: at(Buf::MoeExpertUp),
                        len: se_is,
                    },
                ),
            );
        } else {
            r.push(
                inst(
                    blocks_for(se_is),
                    Op::ReluSq {
                        out: at(Buf::MoeExpertAct),
                        input: at(Buf::MoeExpertUp),
                        len: se_is,
                    },
                ),
            );
        }
        r.push(
            linear_of(
                at(Buf::MoeExpertOut),
                all_of(Weight::SharedDown { layer: m.layer }),
                at(Buf::MoeExpertAct),
                hs,
                se_is,
            ),
        );
        if m.has_shared_gate {
            r.push(
                inst_own_grid(
                    Op::DotSigmoidScaleAdd {
                        dst: at(Buf::FfnDown),
                        src: at(Buf::MoeExpertOut),
                        input: at(Buf::Normed),
                        weight: Weight::SharedExpertGate { layer: m.layer },
                        len: hs,
                    },
                ),
            );
        } else {
            r.push(scale_add_of(at(Buf::FfnDown), at(Buf::MoeExpertOut), ONE_F32, hs));
        }
    }
    assert(r@ =~= shared_insts(m));
    r
}

fn combine_token_plan(m: &MoeLayer, t: usize, n: usize, num_gpus: usize) -> (r: Vec<Inst>)
    requires
        batch_ok(m, n as nat, num_gpus as nat),
        t < n,
    ensures
        r@ == combine_token(m, t as nat, num_gpus as nat),
{
    let hs: usize = m.hidden_size;
    let latent: usize = m.gate_up_in_dim;
    proof {
        arith::lemma_scaled_index(t as int, n as int, hs as int);
    }
    let token = Loc { buf: Buf::PrefillHidden, offset: t * hs };
    let mut r: Vec<Inst> = Vec::new();
    r.push(copy_of(at(Buf::Hidden), token, hs));
    r.push(copy_of(at(Buf::Residual), at(Buf::Hidden), hs));
    r.push(copy_of(at(Buf::FfnDown), at(Buf::ZeroBuffer), hs));
    let ghost head = r@;
    assert(r@ =~= head + sum_slots(m, t as nat, num_gpus as nat, 0));
    let mut g: usize = 0;
    while g < num_gpus
        invariant
            g <= num_gpus,
            batch_ok(m, n as nat, num_gpus as nat),
            t < n,
            hs == m.hidden_size,
            latent == m.gate_up_in_dim,
            r@ == head + sum_slots(m, t as nat, num_gpus as nat, g as nat),
        decreases num_gpus - g,
    {
        proof {
            lemma_output_slot(m, t as nat, n as nat, num_gpus as nat, g as nat);
            arith::lemma_scaled_index(t as int, n as int, num_gpus as int);
        }
        let slot_offset: usize = (t * num_gpus + g) * hs;
        r.push(
            copy_of(
                at(Buf::MoeExpertOut),
                Loc { buf: Buf::OutputSlots, offset: slot_offset },
                latent,
            ),
        );
        r.push(scale_add_of(at(Buf::FfnDown), at(Buf::MoeExpertOut), ONE_F32, latent));
        proof {
            assert(r@ =~= head + sum_slots(m, t as nat, num_gpus as nat, (g + 1) as nat));
        }
        g += 1;
    }
    if m.has_fc2 {
        r.push(copy_of(at(Buf::MoeExpertOut), at(Buf::FfnDown), latent));
        r.push(
            linear_of(
                at(Buf::FfnDown),
                all_of(Weight::Fc2Latent { layer: m.layer }),
                at(Buf::MoeExpertOut),
                hs,
                latent,
            ),
        );
    }
    let mut shared = shared_plan(m);
    r.append(&mut shared);
    r.push(
        inst(
            blocks_for(hs),
            Op::ResidualAdd {
                out: at(Buf::Hidden),
                a: at(Buf::Residual),
                b: at(Buf::FfnDown),
                len: hs,
            },
        ),
    );
    r.push(copy_of(token, at(Buf::Hidden), hs));
    assert(r@ =~= combine_token(m, t as nat, num_gpus as nat));
    r
}

impl MoePrefillPlan {
    /// The plan holds, token by token, the worker round, the local experts and the
    /// final sum.
    pub open spec fn is_plan(
        &self,
        m: &MoeLayer,
        local: &LocalExperts,
        ids: Seq<i32>,
        weights: Seq<u32>,
        n: nat,
        num_gpus: nat,
    ) -> bool {
        &&& self.rounds@.len() == n
        &&& self.local@.len() == n
        &&& self.combine@.len() == n
        &&& forall|t: int|
            0 <= t < n ==> (#[trigger] self.rounds@[t]).is_round(
                m,
                ids,
                weights,
                t as nat,
                num_gpus,
            )
        &&& forall|t: int|
            0 <= t < n ==> (#[trigger] self.local@[t])@ == local_token(
                m,
                local,
                ids,
                weights,
                t as nat,
                num_gpus,
            )
        &&& forall|t: int|
            0 <= t < n ==> (#[trigger] self.combine@[t])@ == combine_token(m, t as nat, num_gpus)
    }
}

/// Plans everything after routing for a batch of `n` tokens, given the routing
/// that GPU 0 produced.
pub fn moe_ffn_forward_prefill_batched(
    m: &MoeLayer,
    local: &LocalExperts,
    ids: &[i32],
    weights: &[u32],
    n: usize,
    num_gpus: usize,
) -> (r: MoePrefillPlan)
    requires
        batch_ok(m, n as nat, num_gpus as nat),
        local.valid(m),
        batch_routing_ok(m, ids@, weights@, n as nat),
    ensures
        r.is_plan(m, local, ids@, weights@, n as nat, num_gpus as nat),
{
    let mut rounds: Vec<WorkerRound> = Vec::new();
    let mut locals: Vec<Vec<Inst>> = Vec::new();
    let mut combine: Vec<Vec<Inst>> = Vec::new();
    let mut t: usize = 0;
    while t < n
        invariant
            t <= n,
            batch_ok(m, n as nat, num_gpus as nat),
            local.valid(m),
            batch_routing_ok(m, ids@, weights@, n as nat),
            rounds@.len() == t,
            locals@.len() == t,
            combine@.len() == t,
            forall|u: int|
                0 <= u < t ==> (#[trigger] rounds@[u]).is_round(
                    m,
                    ids@,
                    weights@,
                    u as nat,
                    num_gpus as nat,
                ),
            forall|u: int|
                0 <= u < t ==> (#[trigger] locals@[u])@ == local_token(
                    m,
                    local,
                    ids@,
                    weights@,
                    u as nat,
                    num_gpus as nat,
                ),
            forall|u: int|
                0 <= u < t ==> (#[trigger] combine@[u])@ == combine_token(
                    m,
                    u as nat,
                    num_gpus as nat,
                ),
        decreases n - t,
    {
        rounds.push(worker_round(m, ids, weights, t, n, num_gpus));
        locals.push(local_token_plan(m, local, ids, weights, t, n, num_gpus));
        combine.push(combine_token_plan(m, t, n, num_gpus));
        t += 1;
    }
    MoePrefillPlan { rounds, local: locals, combine }
}

} // verus!
