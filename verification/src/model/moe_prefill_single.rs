//! Plans of a prefill batch through an expert layer on one GPU: route every token,
//! then load each expert once for all tokens routed to it.

use vstd::prelude::*;
use crate::arith;
use crate::model::moe_forward;
use crate::model::moe_forward::{gate_mode, shared_plan, MoeLayer};
use crate::ops;
use crate::ops::{all_of, at, Buf, Loc, Op, WLoc, Weight, WeightFormat};

verus! {

/// Whether a layer is run expert by expert. Layers with an output projection, in
/// another weight format, or whose experts are not on this GPU go token by token.
pub fn uses_batched_gemm(m: &MoeLayer, experts_loaded: bool) -> (r: bool)
    ensures
        r == (!m.has_fc2 && m.gate_up_format == WeightFormat::PcG32Q4 && experts_loaded),
{
    !m.has_fc2 && m.gate_up_format == WeightFormat::PcG32Q4 && experts_loaded
}

/// A row of a per-token buffer.
pub open spec fn row(buf: Buf, t: nat, width: nat) -> Loc {
    Loc { buf, offset: (t * width) as usize }
}

fn row_of(buf: Buf, t: usize, width: usize) -> (r: Loc)
    requires
        t * width <= usize::MAX,
    ensures
        r == row(buf, t as nat, width as nat),
{
    Loc { buf, offset: t * width }
}

/// Token `t` goes to the hidden buffer.
pub open spec fn copy_in(m: &MoeLayer, t: nat) -> Op {
    Op::Copy {
        dst: ops::start(Buf::Hidden),
        src: row(Buf::PrefillHidden, t, m.hidden_size as nat),
        len: m.hidden_size,
    }
}

/// Token `t` comes back from the hidden buffer.
pub open spec fn copy_out(m: &MoeLayer, t: nat) -> Op {
    Op::Copy {
        dst: row(Buf::PrefillHidden, t, m.hidden_size as nat),
        src: ops::start(Buf::Hidden),
        len: m.hidden_size,
    }
}

/// The copies around a token that is run on its own: into the hidden buffer and back.
pub fn token_copies(m: &MoeLayer, t: usize) -> (r: (Op, Op))
    requires
        t * m.hidden_size <= usize::MAX,
    ensures
        r.0 == copy_in(m, t as nat),
        r.1 == copy_out(m, t as nat),
{
    let token = row_of(Buf::PrefillHidden, t, m.hidden_size);
    (
        Op::Copy { dst: at(Buf::Hidden), src: token, len: m.hidden_size },
        Op::Copy { dst: token, src: at(Buf::Hidden), len: m.hidden_size },
    )
}

/// A step of a batch on one GPU.
#[derive(Clone, Copy, Debug, PartialEq, Eq, Structural)]
pub enum BatchStep {
    Run(Op),
    /// The token in the hidden buffer passes the layer.
    TokenPass,
    /// The whole batch passes the layer, grouped by expert.
    GroupedPass,
}

/// The first `n` tokens, each on its own.
pub open spec fn token_steps(m: &MoeLayer, n: nat) -> Seq<BatchStep>
    decreases n,
{
    if n == 0 {
        Seq::empty()
    } else {
        let t = (n - 1) as nat;
        token_steps(m, t) + seq![
            BatchStep::Run(copy_in(m, t)),
            BatchStep::TokenPass,
            BatchStep::Run(copy_out(m, t)),
        ]
    }
}

/// Plans how a batch of `n` tokens passes the layer: grouped by expert where that is
/// possible, else token by token.
pub fn batch_steps(m: &MoeLayer, experts_loaded: bool, n: usize) -> (r: Vec<BatchStep>)
    requires
        n * m.hidden_size <= usize::MAX,
    ensures
        r@ == if !m.has_fc2 && m.gate_up_format == WeightFormat::PcG32Q4 && experts_loaded {
            seq![BatchStep::GroupedPass]
        } else {
            token_steps(m, n as nat)
        },
{
    let mut r: Vec<BatchStep> = Vec::new();
    if uses_batched_gemm(m, experts_loaded) {
        r.push(BatchStep::GroupedPass);
        assert(r@ =~= seq![BatchStep::GroupedPass]);
        return r;
    }
    let mut t: usize = 0;
    while t < n
        invariant
            t <= n,
            n * m.hidden_size <= usize::MAX,
            r@ == token_steps(m, t as nat),
        decreases n - t,
    {
        proof {
            arith::lemma_scaled_index(t as int, n as int, m.hidden_size as int);
        }
        let (there, back) = token_copies(m, t);
        r.push(BatchStep::Run(there));
        r.push(BatchStep::TokenPass);
        r.push(BatchStep::Run(back));
        assert(r@ =~= token_steps(m, (t + 1) as nat));
        t += 1;
    }
    r
}

/// The batch's extents are addressable.
pub open spec fn batch_ok(m: &MoeLayer, n: nat) -> bool {
    &&& m.valid()
    &&& n <= i32::MAX
    &&& m.num_experts <= i32::MAX
    &&& n * m.hidden_size <= usize::MAX
    &&& n * m.gate_up_in_dim <= usize::MAX
    &&& n * m.num_active <= usize::MAX
    &&& n * m.num_active * m.expert_intermediate_size <= usize::MAX
}

// ---- phase 1: routing ----

/// Saves the residual and the normalised activation of token `t` and routes it.
pub open spec fn route_token(m: &MoeLayer, t: nat) -> Seq<Op> {
    let hs = m.hidden_size;
    let latent = m.gate_up_in_dim;
    let (mode, scaling) = moe_forward::gate_params(m.gate_type);
    seq![
        Op::Copy {
            dst: ops::start(Buf::Hidden),
            src: row(Buf::PrefillHidden, t, hs as nat),
            len: hs,
        },
        Op::Copy {
            dst: row(Buf::PrefillMoeResidual, t, hs as nat),
            src: ops::start(Buf::Hidden),
            len: hs,
        },
        Op::RmsNorm {
            out: ops::start(Buf::Normed),
            input: ops::start(Buf::Hidden),
            weight: m.norm(),
            dim: hs,
            eps: m.eps,
            one_plus_w: m.one_plus_w,
        },
        Op::Copy {
            dst: row(Buf::PrefillMoeNormed, t, latent as nat),
            src: ops::start(Buf::Normed),
            len: latent,
        },
        Op::Linear {
            out: ops::start(Buf::MoeScores),
            matrix: ops::whole(Weight::Router { layer: m.layer }),
            input: ops::start(Buf::Normed),
            out_dim: m.num_experts,
            in_dim: hs,
        },
        Op::MoeGate {
            scores: ops::start(Buf::MoeScores),
            ids: row(Buf::PrefillMoeIds, t, m.num_active as nat),
            weights: row(Buf::PrefillMoeWeights, t, m.num_active as nat),
            bias: m.bias(),
            num_experts: m.num_experts,
            k: m.num_active,
            mode,
            scaling,
        },
    ]
}

/// Routing of the first `n` tokens.
pub open spec fn route_tokens(m: &MoeLayer, n: nat) -> Seq<Op>
    decreases n,
{
    if n == 0 {
        Seq::empty()
    } else {
        route_tokens(m, (n - 1) as nat) + route_token(m, (n - 1) as nat)
    }
}

fn route_token_plan(m: &MoeLayer, t: usize, n: usize) -> (r: Vec<Op>)
    requires
        batch_ok(m, n as nat),
        t < n,
    ensures
        r@ == route_token(m, t as nat),
{
    proof {
        arith::lemma_scaled_index(t as int, n as int, m.hidden_size as int);
        arith::lemma_scaled_index(t as int, n as int, m.gate_up_in_dim as int);
        arith::lemma_scaled_index(t as int, n as int, m.num_active as int);
    }
    let hs: usize = m.hidden_size;
    let latent: usize = m.gate_up_in_dim;
    let (mode, scaling): (u32, u32) = gate_mode(m.gate_type);
    let r: Vec<Op> = vec![
        Op::Copy { dst: at(Buf::Hidden), src: row_of(Buf::PrefillHidden, t, hs), len: hs },
        Op::Copy { dst: row_of(Buf::PrefillMoeResidual, t, hs), src: at(Buf::Hidden), len: hs },
        Op::RmsNorm {
            out: at(Buf::Normed),
            input: at(Buf::Hidden),
            weight: m.norm_weight(),
            dim: hs,
            eps: m.eps,
            one_plus_w: m.one_plus_w,
        },
        Op::Copy {
            dst: row_of(Buf::PrefillMoeNormed, t, latent),
            src: at(Buf::Normed),
            len: latent,
        },
        Op::Linear {
            out: at(Buf::MoeScores),
            matrix: all_of(Weight::Router { layer: m.layer }),
            input: at(Buf::Normed),
            out_dim: m.num_experts,
            in_dim: hs,
        },
        Op::MoeGate {
            scores: at(Buf::MoeScores),
            ids: row_of(Buf::PrefillMoeIds, t, m.num_active),
            weights: row_of(Buf::PrefillMoeWeights, t, m.num_active),
            bias: m.score_bias(),
            num_experts: m.num_experts,
            k: m.num_active,
            mode,
            scaling,
        },
    ];
    assert(r@ =~= route_token(m, t as nat));
    r
}

/// Plans the routing of the batch, with one wait at the end.
pub fn moe_single_route(m: &MoeLayer, n: usize) -> (r: Vec<Op>)
    requires
        batch_ok(m, n as nat),
    ensures
        r@ == route_tokens(m, n as nat) + seq![Op::Sync],
{
    let mut r: Vec<Op> = Vec::new();
    let mut t: usize = 0;
    while t < n
        invariant
            t <= n,
            batch_ok(m, n as nat),
            r@ == route_tokens(m, t as nat),
        decreases n - t,
    {
        let mut one: Vec<Op> = route_token_plan(m, t, n);
        r.append(&mut one);
        t += 1;
    }
    r.push(Op::Sync);
    assert(r@ =~= route_tokens(m, n as nat) + seq![Op::Sync]);
    r
}

// ---- phase 2: experts ----

/// The tokens among the first `count` routing entries that chose `expert`, in
/// order. Entry `f` belongs to token `f / k`.
pub open spec fn tokens_of(ids: Seq<i32>, k: nat, expert: nat, count: nat) -> Seq<i32>
    decreases count,
{
    if count == 0 {
        Seq::empty()
    } else {
        let rest = tokens_of(ids, k, expert, (count - 1) as nat);
        if ids[count - 1] == expert {
            rest.push(((count - 1) as nat / k) as i32)
        } else {
            rest
        }
    }
}

/// The weights those entries carry, in the same order.
pub open spec fn weights_of(ids: Seq<i32>, weights: Seq<u32>, expert: nat, count: nat) -> Seq<u32>
    decreases count,
{
    if count == 0 {
        Seq::empty()
    } else {
        let rest = weights_of(ids, weights, expert, (count - 1) as nat);
        if ids[count - 1] == expert {
            rest.push(weights[count - 1])
        } else {
            rest
        }
    }
}

/// Entries that chose one of the first `experts` experts.
pub open spec fn routed_total(ids: Seq<i32>, k: nat, experts: nat, count: nat) -> nat
    decreases experts,
{
    if experts == 0 {
        0
    } else {
        routed_total(ids, k, (experts - 1) as nat, count) + tokens_of(
            ids,
            k,
            (experts - 1) as nat,
            count,
        ).len()
    }
}

/// One more entry adds one token to the expert it names, if that is among the first.
proof fn lemma_routed_total_step(ids: Seq<i32>, k: nat, experts: nat, count: nat)
    requires
        count > 0,
    ensures
        routed_total(ids, k, experts, count) == routed_total(ids, k, experts, (count - 1) as nat)
            + if 0 <= ids[count - 1] < experts {
            1nat
        } else {
            0nat
        },
    decreases experts,
{
    if experts > 0 {
        lemma_routed_total_step(ids, k, (experts - 1) as nat, count);
    }
}

/// Every routing entry is handled by exactly one expert: the groups together hold
/// as many tokens as there are entries.
pub proof fn law_groups_cover_routing(ids: Seq<i32>, k: nat, experts: nat, count: nat)
    requires
        count <= ids.len(),
        forall|f: int| 0 <= f < count ==> 0 <= (#[trigger] ids[f]) < experts,
    ensures
        routed_total(ids, k, experts, count) == count,
    decreases count,
{
    if count > 0 {
        law_groups_cover_routing(ids, k, experts, (count - 1) as nat);
        lemma_routed_total_step(ids, k, experts, count);
    } else {
        lemma_routed_total_empty(ids, k, experts);
    }
}

proof fn lemma_routed_total_empty(ids: Seq<i32>, k: nat, experts: nat)
    ensures
        routed_total(ids, k, experts, 0) == 0,
    decreases experts,
{
    if experts > 0 {
        lemma_routed_total_empty(ids, k, (experts - 1) as nat);
    }
}

/// A group lists as many weights as tokens, at most one per entry.
pub proof fn lemma_group_len(ids: Seq<i32>, weights: Seq<u32>, k: nat, expert: nat, count: nat)
    ensures
        tokens_of(ids, k, expert, count).len() == weights_of(ids, weights, expert, count).len(),
        tokens_of(ids, k, expert, count).len() <= count,
    decreases count,
{
    if count > 0 {
        lemma_group_len(ids, weights, k, expert, (count - 1) as nat);
    }
}

/// One expert's share of the batch: what to upload and what to run.
pub struct ExpertBatch {
    pub expert: usize,
    pub token_indices: Vec<i32>,
    pub token_weights: Vec<u32>,
    pub ops: Vec<Op>,
}

/// One expert over `rows` gathered tokens.
pub open spec fn batch_ops(m: &MoeLayer, expert: nat, rows: nat) -> Seq<Op> {
    let eis = m.expert_intermediate_size;
    let latent = m.gate_up_in_dim;
    let gu = Weight::ExpertGateUp { layer: m.layer };
    let up = Op::LinearBatched {
        out: ops::start(Buf::PrefillMoeUpOut),
        matrix: WLoc { weight: gu, byte_offset: m.up_offset(expert) as usize },
        input: ops::start(Buf::PrefillMoeExpertInput),
        out_dim: eis,
        in_dim: latent,
        rows: rows as usize,
    };
    let act = if m.has_gate_proj {
        seq![
            Op::LinearBatched {
                out: ops::start(Buf::PrefillMoeGateOut),
                matrix: WLoc { weight: gu, byte_offset: m.gate_up_offset(expert) as usize },
                input: ops::start(Buf::PrefillMoeExpertInput),
                out_dim: eis,
                in_dim: latent,
                rows: rows as usize,
            },
            up,
            Op::SiluMul {
                out: ops::start(Buf::PrefillMoeActOut),
                gate: ops::start(Buf::PrefillMoeGateOut),
                up: ops::start(Buf::PrefillMoeUpOut),
                len: (rows * eis as nat) as usize,
            },
        ]
    } else {
        seq![
            up,
            Op::ReluSq {
                out: ops::start(Buf::PrefillMoeActOut),
                input: ops::start(Buf::PrefillMoeUpOut),
                len: (rows * eis as nat) as usize,
            },
        ]
    };
    seq![
        Op::Gather {
            out: ops::start(Buf::PrefillMoeExpertInput),
            input: ops::start(Buf::PrefillMoeNormed),
            rows: rows as usize,
            dim: latent,
        },
    ] + act + seq![
        Op::LinearBatched {
            out: ops::start(Buf::PrefillMoeDownOut),
            matrix: WLoc {
                weight: Weight::ExpertDown { layer: m.layer },
                byte_offset: m.down_offset(expert) as usize,
            },
            input: ops::start(Buf::PrefillMoeActOut),
            out_dim: latent,
            in_dim: eis,
            rows: rows as usize,
        },
        Op::ScatterAdd {
            out: ops::start(Buf::PrefillMoeFfnOut),
            input: ops::start(Buf::PrefillMoeDownOut),
            rows: rows as usize,
            dim: latent,
        },
    ]
}

impl ExpertBatch {
    /// This is `expert`'s share of the routing.
    pub open spec fn is_share(
        &self,
        m: &MoeLayer,
        ids: Seq<i32>,
        weights: Seq<u32>,
        n: nat,
        expert: nat,
    ) -> bool {
        let count = n * m.num_active as nat;
        &&& self.expert == expert
        &&& self.token_indices@ == tokens_of(ids, m.num_active as nat, expert, count)
        &&& self.token_weights@ == weights_of(ids, weights, expert, count)
        &&& self.ops@ == batch_ops(m, expert, self.token_indices@.len())
    }
}

/// The experts below `count` that any token chose, in ascending order.
pub open spec fn chosen_experts(m: &MoeLayer, ids: Seq<i32>, n: nat, count: nat) -> Seq<nat>
    decreases count,
{
    if count == 0 {
        Seq::empty()
    } else {
        let rest = chosen_experts(m, ids, n, (count - 1) as nat);
        let e = (count - 1) as nat;
        if tokens_of(ids, m.num_active as nat, e, n * m.num_active as nat).len() == 0 {
            rest
        } else {
            rest.push(e)
        }
    }
}

fn expert_share(m: &MoeLayer, ids: &[i32], weights: &[u32], n: usize, expert: usize) -> (r:
    ExpertBatch)
    requires
        batch_ok(m, n as nat),
        ids@.len() >= n * m.num_active,
        weights@.len() >= n * m.num_active,
        expert < m.num_experts,
    ensures
        r.is_share(m, ids@, weights@, n as nat, expert as nat),
{
    let k: usize = m.num_active;
    let total: usize = n * k;
    let mut token_indices: Vec<i32> = Vec::new();
    let mut token_weights: Vec<u32> = Vec::new();
    let mut f: usize = 0;
    while f < total
        invariant
            f <= total,
            total == n * k,
            k == m.num_active,
            batch_ok(m, n as nat),
            expert < m.num_experts,
            ids@.len() >= total,
            weights@.len() >= total,
            token_indices@ == tokens_of(ids@, k as nat, expert as nat, f as nat),
            token_weights@ == weights_of(ids@, weights@, expert as nat, f as nat),
        decreases total - f,
    {
        if ids[f] == expert as i32 {
            proof {
                assert(k > 0) by (nonlinear_arith)
                    requires
                        f < total,
                        total == n * k,
                        f >= 0,
                        k >= 0,
                ;
                assert(n * k == k * n) by (nonlinear_arith);
                vstd::arithmetic::div_mod::lemma_multiply_divide_lt(f as int, k as int, n as int);
            }
            token_indices.push((f / k) as i32);
            token_weights.push(weights[f]);
        }
        f += 1;
    }
    let rows: usize = token_indices.len();
    let eis: usize = m.expert_intermediate_size;
    let latent: usize = m.gate_up_in_dim;
    proof {
        lemma_group_len(ids@, weights@, k as nat, expert as nat, total as nat);
        arith::lemma_mul_mono(rows as int, total as int, eis as int);
    }
    let (gate_off, up_off, dn_off): (usize, usize, usize) = m.expert_offsets(expert);
    let gu = Weight::ExpertGateUp { layer: m.layer };
    let mut list: Vec<Op> = Vec::new();
    list.push(
        Op::Gather {
            out: at(Buf::PrefillMoeExpertInput),
            input: at(Buf::PrefillMoeNormed),
            rows,
            dim: latent,
        },
    );
    if m.has_gate_proj {
        list.push(
            Op::LinearBatched {
                out: at(Buf::PrefillMoeGateOut),
                matrix: WLoc { weight: gu, byte_offset: gate_off },
                input: at(Buf::PrefillMoeExpertInput),
                out_dim: eis,
                in_dim: latent,
                rows,
            },
        );
    }
    list.push(
        Op::LinearBatched {
            out: at(Buf::PrefillMoeUpOut),
            matrix: WLoc { weight: gu, byte_offset: up_off },
            input: at(Buf::PrefillMoeExpertInput),
            out_dim: eis,
            in_dim: latent,
            rows,
        },
    );
    if m.has_gate_proj {
        list.push(
            Op::SiluMul {
                out: at(Buf::PrefillMoeActOut),
                gate: at(Buf::PrefillMoeGateOut),
                up: at(Buf::PrefillMoeUpOut),
                len: rows * eis,
            },
        );
    } else {
        list.push(
            Op::ReluSq {
                out: at(Buf::PrefillMoeActOut),
                input: at(Buf::PrefillMoeUpOut),
                len: rows * eis,
            },
        );
    }
    list.push(
        Op::LinearBatched {
            out: at(Buf::PrefillMoeDownOut),
            matrix: WLoc { weight: Weight::ExpertDown { layer: m.layer }, byte_offset: dn_off },
            input: at(Buf::PrefillMoeActOut),
            out_dim: latent,
            in_dim: eis,
            rows,
        },
    );
    list.push(
        Op::ScatterAdd {
            out: at(Buf::PrefillMoeFfnOut),
            input: at(Buf::PrefillMoeDownOut),
            rows,
            dim: latent,
        },
    );
    assert(list@ =~= batch_ops(m, expert as nat, rows as nat));
    ExpertBatch { expert, token_indices, token_weights, ops: list }
}

// ---- phase 3: combination ----

/// Token `t`'s sum, shared expert and residual, written back over its hidden state.
pub open spec fn finish_token(m: &MoeLayer, t: nat) -> Seq<Op> {
    let hs = m.hidden_size;
    let restore = if m.has_shared {
        seq![
            Op::Copy {
                dst: ops::start(Buf::Normed),
                src: row(Buf::PrefillMoeNormed, t, hs as nat),
                len: hs,
            },
        ]
    } else {
        Seq::empty()
    };
    seq![
        Op::Copy {
            dst: ops::start(Buf::FfnDown),
            src: row(Buf::PrefillMoeFfnOut, t, hs as nat),
            len: hs,
        },
    ] + restore + moe_forward::shared_ops(m) + seq![
        Op::Copy {
            dst: ops::start(Buf::Residual),
            src: row(Buf::PrefillMoeResidual, t, hs as nat),
            len: hs,
        },
        Op::ResidualAdd {
            out: ops::start(Buf::Hidden),
            a: ops::start(Buf::Residual),
            b: ops::start(Buf::FfnDown),
            len: hs,
        },
        Op::Copy {
            dst: row(Buf::PrefillHidden, t, hs as nat),
            src: ops::start(Buf::Hidden),
            len: hs,
        },
    ]
}

/// The first `n` tokens' combination.
pub open spec fn finish_tokens(m: &MoeLayer, n: nat) -> Seq<Op>
    decreases n,
{
    if n == 0 {
        Seq::empty()
    } else {
        finish_tokens(m, (n - 1) as nat) + finish_token(m, (n - 1) as nat)
    }
}

fn finish_token_plan(m: &MoeLayer, t: usize, n: usize) -> (r: Vec<Op>)
    requires
        batch_ok(m, n as nat),
        t < n,
    ensures
        r@ == finish_token(m, t as nat),
{
    proof {
        arith::lemma_scaled_index(t as int, n as int, m.hidden_size as int);
    }
    let hs: usize = m.hidden_size;
    let mut r: Vec<Op> = Vec::new();
    r.push(Op::Copy { dst: at(Buf::FfnDown), src: row_of(Buf::PrefillMoeFfnOut, t, hs), len: hs });
    if m.has_shared {
        r.push(
            Op::Copy { dst: at(Buf::Normed), src: row_of(Buf::PrefillMoeNormed, t, hs), len: hs },
        );
    }
    let mut shared = shared_plan(m);
    r.append(&mut shared);
    r.push(
        Op::Copy { dst: at(Buf::Residual), src: row_of(Buf::PrefillMoeResidual, t, hs), len: hs },
    );
    r.push(
        Op::ResidualAdd {
            out: at(Buf::Hidden),
            a: at(Buf::Residual),
            b: at(Buf::FfnDown),
            len: hs,
        },
    );
    r.push(Op::Copy { dst: row_of(Buf::PrefillHidden, t, hs), src: at(Buf::Hidden), len: hs });
    assert(r@ =~= finish_token(m, t as nat));
    r
}

/// What follows routing: the experts that were chosen, then the combination.
pub struct SingleGpuPlan {
    /// Clears the output accumulator.
    pub clear: Op,
    /// Chosen experts in ascending order.
    pub experts: Vec<ExpertBatch>,
    /// Per-token combination, ending with a wait.
    pub finish: Vec<Op>,
}

impl SingleGpuPlan {
    pub open spec fn is_plan(
        &self,
        m: &MoeLayer,
        ids: Seq<i32>,
        weights: Seq<u32>,
        n: nat,
    ) -> bool {
        let chosen = chosen_experts(m, ids, n, m.num_experts as nat);
        &&& self.clear == Op::Zero {
            dst: ops::start(Buf::PrefillMoeFfnOut),
            len: (n * m.hidden_size as nat) as usize,
        }
        &&& self.experts@.len() == chosen.len()
        &&& forall|i: int|
            0 <= i < chosen.len() ==> (#[trigger] self.experts@[i]).is_share(
                m,
                ids,
                weights,
                n,
                chosen[i],
            )
        &&& self.finish@ == finish_tokens(m, n) + seq![Op::Sync]
    }
}

/// Plans everything after routing, given every token's experts and weights.
pub fn moe_ffn_forward_prefill_single_gpu_batched(
    m: &MoeLayer,
    ids: &[i32],
    weights: &[u32],
    n: usize,
) -> (r: SingleGpuPlan)
    requires
        batch_ok(m, n as nat),
        ids@.len() >= n * m.num_active,
        weights@.len() >= n * m.num_active,
    ensures
        r.is_plan(m, ids@, weights@, n as nat),
{
    let clear = Op::Zero { dst: at(Buf::PrefillMoeFfnOut), len: n * m.hidden_size };
    let mut experts: Vec<ExpertBatch> = Vec::new();
    let mut e: usize = 0;
    while e < m.num_experts
        invariant
            e <= m.num_experts,
            batch_ok(m, n as nat),
            ids@.len() >= n * m.num_active,
            weights@.len() >= n * m.num_active,
            experts@.len() == chosen_experts(m, ids@, n as nat, e as nat).len(),
            forall|i: int|
                0 <= i < experts@.len() ==> (#[trigger] experts@[i]).is_share(
                    m,
                    ids@,
                    weights@,
                    n as nat,
                    chosen_experts(m, ids@, n as nat, e as nat)[i],
                ),
        decreases m.num_experts - e,
    {
        let share = expert_share(m, ids, weights, n, e);
        let ghost before = experts@;
        if share.token_indices.len() != 0 {
            experts.push(share);
        }
        proof {
            let prev = chosen_experts(m, ids@, n as nat, e as nat);
            let next = chosen_experts(m, ids@, n as nat, (e + 1) as nat);
            assert forall|i: int| 0 <= i < experts@.len() implies (
            #[trigger] experts@[i]).is_share(m, ids@, weights@, n as nat, next[i]) by {
                if i < before.len() {
                    assert(experts@[i] == before[i]);
                    assert(next[i] == prev[i]);
                }
            }
        }
        e += 1;
    }
    let mut finish: Vec<Op> = Vec::new();
    let mut t: usize = 0;
    while t < n
        invariant
            t <= n,
            batch_ok(m, n as nat),
            finish@ == finish_tokens(m, t as nat),
        decreases n - t,
    {
        let mut one: Vec<Op> = finish_token_plan(m, t, n);
        finish.append(&mut one);
        t += 1;
    }
    finish.push(Op::Sync);
    assert(finish@ =~= finish_tokens(m, n as nat) + seq![Op::Sync]);
    SingleGpuPlan { clear, experts, finish }
}

} // verus!
