//! What a token's pass through an expert layer computes, alone or in a batch of tokens
//! taken one by one.

use vstd::prelude::*;
use crate::arith;
use crate::config::{GateType, LayerType};
use crate::model::moe_forward;
use crate::model::moe_forward::MoeLayer;
use crate::model::moe_meaning;
use crate::model::moe_meaning::{Arithmetic, Contents, Norm, Router};
use crate::model::moe_prefill_single;
use crate::ops;
use crate::ops::{Buf, Op, WLoc, Weight, WeightFormat, ONE_F32};

verus! {

// ---- what a token's pass computes ----

/// A token's normalised activation: a standalone expert layer normalises with the norm
/// of its input, one that follows a mixer with the norm behind that.
pub open spec fn normed<V>(a: Arithmetic<V>, m: &MoeLayer, x: Seq<V>) -> Seq<V> {
    let weight = match m.mixer {
        LayerType::MoeFfn => Weight::InputNorm { layer: m.layer },
        _ => Weight::PostNorm { layer: m.layer },
    };
    Seq::new(
        m.hidden_size as nat,
        |i: int| (a.norm)(x, Norm { weight, eps: m.eps, one_plus_w: m.one_plus_w }, i),
    )
}

/// A token's scores.
pub open spec fn scores<V>(a: Arithmetic<V>, m: &MoeLayer, x: Seq<V>) -> Seq<V> {
    Seq::new(
        m.num_experts as nat,
        |i: int|
            (a.product)(ops::whole(Weight::Router { layer: m.layer }), normed(a, m, x), i),
    )
}

/// How a layer routes: the scores' bias where it has one, and the mode and scaling of
/// its gate.
pub open spec fn router(m: &MoeLayer) -> Router {
    let bias = if m.has_score_bias {
        Some(Weight::ScoreBias { layer: m.layer })
    } else {
        None
    };
    let k = m.num_active;
    match m.gate_type {
        GateType::Softmax => Router { bias, k, mode: 0, scaling: ONE_F32 },
        GateType::NormTopK { routed_scaling_factor } => Router {
            bias,
            k,
            mode: 1,
            scaling: routed_scaling_factor,
        },
        GateType::Sigmoid { routed_scaling_factor } => Router {
            bias,
            k,
            mode: 2,
            scaling: routed_scaling_factor,
        },
    }
}

/// The experts a token is routed to.
pub open spec fn routed_ids<V>(a: Arithmetic<V>, m: &MoeLayer, x: Seq<V>) -> Seq<i32> {
    Seq::new(m.num_active as nat, |j: int| (a.expert)(scores(a, m, x), router(m), j))
}

/// The share of each of them.
pub open spec fn routed_shares<V>(a: Arithmetic<V>, m: &MoeLayer, x: Seq<V>) -> Seq<u32> {
    Seq::new(m.num_active as nat, |j: int| (a.share)(scores(a, m, x), router(m), j))
}

/// The inner activation of an expert.
pub open spec fn inner<V>(
    a: Arithmetic<V>,
    gate: Option<WLoc>,
    up: WLoc,
    x: Seq<V>,
    width: nat,
) -> Seq<V> {
    Seq::new(
        width,
        |i: int|
            match gate {
                Some(g) => (a.silu_mul)((a.product)(g, x, i), (a.product)(up, x, i)),
                None => (a.relu_sq)((a.product)(up, x, i)),
            },
    )
}

/// The matrix that starts with row `first` of a tensor with rows of `width` weights.
pub open spec fn from_row(weight: Weight, format: WeightFormat, width: usize, first: int) -> WLoc {
    WLoc { weight, byte_offset: (first * format.row_bytes(width as nat)) as usize }
}

/// An expert's gate projection: the first half of its rows in the fused tensor.
pub open spec fn gate_of(m: &MoeLayer, expert: nat) -> Option<WLoc> {
    if m.has_gate_proj {
        Some(
            from_row(
                Weight::ExpertGateUp { layer: m.layer },
                m.gate_up_format,
                m.gate_up_in_dim,
                expert * (2 * m.expert_intermediate_size),
            ),
        )
    } else {
        None
    }
}

/// An expert's up projection: the second half of its rows in the fused tensor, or all of
/// them where there is no gate projection.
pub open spec fn up_of(m: &MoeLayer, expert: nat) -> WLoc {
    let inter = m.expert_intermediate_size;
    from_row(
        Weight::ExpertGateUp { layer: m.layer },
        m.gate_up_format,
        m.gate_up_in_dim,
        if m.has_gate_proj {
            expert * (2 * inter) + inter
        } else {
            expert * inter
        },
    )
}

/// An expert's down projection.
pub open spec fn down_of(m: &MoeLayer, expert: nat) -> WLoc {
    from_row(
        Weight::ExpertDown { layer: m.layer },
        m.down_format,
        m.expert_intermediate_size,
        expert * m.gate_up_in_dim,
    )
}

/// Element `i` of an expert's output for the normalised activation `x`.
pub open spec fn expert_out<V>(
    a: Arithmetic<V>,
    m: &MoeLayer,
    x: Seq<V>,
    expert: nat,
    i: int,
) -> V {
    (a.product)(
        down_of(m, expert),
        inner(
            a,
            gate_of(m, expert),
            up_of(m, expert),
            x,
            m.expert_intermediate_size as nat,
        ),
        i,
    )
}

/// Element `i` after the first `count` routed experts were added to `acc`.
pub open spec fn experts_sum<V>(
    a: Arithmetic<V>,
    m: &MoeLayer,
    x: Seq<V>,
    ids: Seq<i32>,
    shares: Seq<u32>,
    acc: V,
    i: int,
    count: nat,
) -> V
    decreases count,
{
    if count == 0 {
        acc
    } else {
        (a.sum)(
            experts_sum(a, m, x, ids, shares, acc, i, (count - 1) as nat),
            (a.scaled)(shares[count - 1], expert_out(a, m, x, ids[count - 1] as nat, i)),
        )
    }
}

/// Element `i` with the shared expert's output added to `v`.
pub open spec fn with_shared<V>(
    a: Arithmetic<V>,
    m: &MoeLayer,
    x: Seq<V>,
    v: V,
    i: int,
) -> V {
    if !m.has_shared {
        v
    } else {
        let gate = if m.has_gate_proj {
            Some(ops::whole(Weight::SharedGateProj { layer: m.layer }))
        } else {
            None
        };
        let width = if m.shared_intermediate_size > 0 {
            m.shared_intermediate_size
        } else {
            m.config_intermediate_size
        };
        let act = inner(
            a,
            gate,
            ops::whole(Weight::SharedUp { layer: m.layer }),
            x,
            width as nat,
        );
        let out = (a.product)(ops::whole(Weight::SharedDown { layer: m.layer }), act, i);
        if m.has_shared_gate {
            (a.sum)(v, (a.gated)(Weight::SharedExpertGate { layer: m.layer }, x, out))
        } else {
            (a.sum)(v, (a.scaled)(ONE_F32, out))
        }
    }
}

/// Element `i` of what the sum over the experts becomes: with an output projection it
/// passes that.
pub open spec fn projected<V>(a: Arithmetic<V>, m: &MoeLayer, sum: Seq<V>, i: int) -> V {
    if m.has_fc2 {
        (a.product)(ops::whole(Weight::Fc2Latent { layer: m.layer }), sum, i)
    } else {
        sum[i]
    }
}

/// What the experts read of the normalised activation `x`: with an input projection
/// they read that.
pub open spec fn latent<V>(a: Arithmetic<V>, m: &MoeLayer, x: Seq<V>) -> Seq<V> {
    if m.has_fc1 {
        Seq::new(
            m.gate_up_in_dim as nat,
            |i: int| (a.product)(ops::whole(Weight::Fc1Latent { layer: m.layer }), x, i),
        )
    } else {
        x
    }
}

/// The sum over a token's routed experts.
pub open spec fn routed_sum<V>(a: Arithmetic<V>, m: &MoeLayer, x: Seq<V>) -> Seq<V> {
    Seq::new(
        m.gate_up_in_dim as nat,
        |i: int|
            experts_sum(
                a,
                m,
                latent(a, m, normed(a, m, x)),
                routed_ids(a, m, x),
                routed_shares(a, m, x),
                a.zero,
                i,
                m.num_active as nat,
            ),
    )
}

/// Element `i` of a token's new hidden state.
pub open spec fn layer_out<V>(a: Arithmetic<V>, m: &MoeLayer, x: Seq<V>, i: int) -> V {
    (a.sum)(
        x[i],
        with_shared(
            a,
            m,
            normed(a, m, x),
            projected(a, m, routed_sum(a, m, x), i),
            i,
        ),
    )
}

// ---- one token ----

/// Buffers that experts write.
pub open spec fn is_scratch(b: Buf) -> bool {
    b == Buf::MoeExpertGate || b == Buf::MoeExpertUp || b == Buf::MoeExpertAct || b
        == Buf::MoeExpertOut || b == Buf::FfnDown
}

/// All but scratch is as before.
pub open spec fn kept<V>(s: Contents<V>, t: Contents<V>) -> bool {
    &&& forall|b: Buf, i: int| !is_scratch(b) ==> #[trigger] (t.value)(b, i) == (s.value)(b, i)
    &&& t.ids == s.ids
    &&& t.shares == s.shares
}

/// How far experts write into a scratch buffer.
pub open spec fn room(m: &MoeLayer, b: Buf) -> int {
    let inter = m.expert_intermediate_size as int;
    let shared = if !m.has_shared {
        0
    } else if m.shared_intermediate_size > 0 {
        m.shared_intermediate_size as int
    } else {
        m.config_intermediate_size as int
    };
    if b == Buf::MoeExpertOut || b == Buf::FfnDown {
        vstd::math::max(m.hidden_size as int, m.gate_up_in_dim as int)
    } else {
        vstd::math::max(inter, shared)
    }
}

/// Scratch is written within its bounds.
pub open spec fn bounded<V>(m: &MoeLayer, s: Contents<V>, t: Contents<V>) -> bool {
    forall|b: Buf, i: int|
        !(0 <= i < room(m, b)) && is_scratch(b) ==> #[trigger] (t.value)(b, i) == (s.value)(b, i)
}

/// No projection into the experts' space: experts read hidden states.
pub open spec fn direct(m: &MoeLayer) -> bool {
    !m.has_fc1 && m.gate_up_in_dim == m.hidden_size
}

/// Experts are as wide as hidden states, but for projections into and out of their
/// space.
pub open spec fn shaped(m: &MoeLayer) -> bool {
    &&& m.has_fc1 || m.gate_up_in_dim == m.hidden_size
    &&& m.has_fc2 || m.gate_up_in_dim == m.hidden_size
}

proof fn lemma_expert<V>(
    a: Arithmetic<V>,
    m: &MoeLayer,
    s: Contents<V>,
    x: Seq<V>,
    expert: nat,
    share: u32,
)
    requires
        x == moe_meaning::read(
            s,
            ops::start(moe_forward::expert_input(m)),
            m.gate_up_in_dim as nat,
        ),
    ensures
        ({
            let t = moe_meaning::run(a, s, moe_forward::expert_ops(m, expert, share));
            let total = moe_forward::accumulator(m);
            &&& kept(s, t)
            &&& bounded(m, s, t)
            &&& forall|i: int|
                0 <= i < m.gate_up_in_dim ==> #[trigger] (t.value)(total, i) == (a.sum)(
                    (s.value)(total, i),
                    (a.scaled)(share, expert_out(a, m, x, expert, i)),
                )
        }),
{
    let l = moe_forward::expert_ops(m, expert, share);
    let eis = m.expert_intermediate_size as nat;
    let act = inner(a, gate_of(m, expert), up_of(m, expert), x, eis);
    reveal_with_fuel(moe_meaning::after, 6);
    let s1 = moe_meaning::step(a, s, l[0]);
    let s2 = moe_meaning::step(a, s1, l[1]);
    if m.has_gate_proj {
        let s3 = moe_meaning::step(a, s2, l[2]);
        let s4 = moe_meaning::step(a, s3, l[3]);
        let s5 = moe_meaning::step(a, s4, l[4]);
        assert(moe_meaning::run(a, s, l) == s5);
        assert(moe_meaning::read(
            s1,
            ops::start(moe_forward::expert_input(m)),
            m.gate_up_in_dim as nat,
        ) =~= x);
        assert(moe_meaning::read(s3, ops::start(Buf::MoeExpertAct), eis) =~= act);
    } else {
        let s3 = moe_meaning::step(a, s2, l[2]);
        let s4 = moe_meaning::step(a, s3, l[3]);
        assert(moe_meaning::run(a, s, l) == s4);
        assert(moe_meaning::read(s2, ops::start(Buf::MoeExpertAct), eis) =~= act);
    }
}

proof fn lemma_experts<V>(
    a: Arithmetic<V>,
    m: &MoeLayer,
    s: Contents<V>,
    x: Seq<V>,
    ids: Seq<i32>,
    shares: Seq<u32>,
    count: nat,
)
    requires
        x == moe_meaning::read(
            s,
            ops::start(moe_forward::expert_input(m)),
            m.gate_up_in_dim as nat,
        ),
    ensures
        ({
            let t = moe_meaning::run(a, s, moe_forward::experts_ops(m, ids, shares, count));
            let total = moe_forward::accumulator(m);
            &&& kept(s, t)
            &&& bounded(m, s, t)
            &&& forall|i: int|
                0 <= i < m.gate_up_in_dim ==> #[trigger] (t.value)(total, i) == experts_sum(
                    a,
                    m,
                    x,
                    ids,
                    shares,
                    (s.value)(total, i),
                    i,
                    count,
                )
        }),
    decreases count,
{
    if count > 0 {
        let p = (count - 1) as nat;
        let before = moe_forward::experts_ops(m, ids, shares, p);
        let last = moe_forward::expert_ops(m, ids[count - 1] as nat, shares[count - 1]);
        let t = moe_meaning::run(a, s, before);
        lemma_experts(a, m, s, x, ids, shares, p);
        moe_meaning::lemma_run_joined(a, s, before, last);
        assert(moe_meaning::read(
            t,
            ops::start(moe_forward::expert_input(m)),
            m.gate_up_in_dim as nat,
        ) =~= x);
        lemma_expert(a, m, t, x, ids[count - 1] as nat, shares[count - 1]);
    }
}

pub proof fn lemma_shared<V>(a: Arithmetic<V>, m: &MoeLayer, s: Contents<V>, x: Seq<V>)
    requires
        x == moe_meaning::read(s, ops::start(Buf::Normed), m.hidden_size as nat),
    ensures
        ({
            let t = moe_meaning::run(a, s, moe_forward::shared_ops(m));
            &&& kept(s, t)
            &&& bounded(m, s, t)
            &&& forall|i: int|
                0 <= i < m.hidden_size ==> #[trigger] (t.value)(Buf::FfnDown, i) == with_shared(
                    a,
                    m,
                    x,
                    (s.value)(Buf::FfnDown, i),
                    i,
                )
        }),
{
    let l = moe_forward::shared_ops(m);
    let hs = m.hidden_size as nat;
    reveal_with_fuel(moe_meaning::after, 6);
    if m.has_shared {
        let width = m.shared_width() as nat;
        let gate = if m.has_gate_proj {
            Some(ops::whole(Weight::SharedGateProj { layer: m.layer }))
        } else {
            None
        };
        let act = inner(a, gate, ops::whole(Weight::SharedUp { layer: m.layer }), x, width);
        let s1 = moe_meaning::step(a, s, l[0]);
        let s2 = moe_meaning::step(a, s1, l[1]);
        let s3 = moe_meaning::step(a, s2, l[2]);
        let s4 = moe_meaning::step(a, s3, l[3]);
        assert(moe_meaning::read(s1, ops::start(Buf::Normed), hs) =~= x);
        if m.has_gate_proj {
            let s5 = moe_meaning::step(a, s4, l[4]);
            assert(moe_meaning::run(a, s, l) == s5);
            assert(moe_meaning::read(s3, ops::start(Buf::MoeExpertAct), width) =~= act);
            assert(moe_meaning::read(s4, ops::start(Buf::Normed), hs) =~= x);
        } else {
            assert(moe_meaning::run(a, s, l) == s4);
            assert(moe_meaning::read(s2, ops::start(Buf::MoeExpertAct), width) =~= act);
            assert(moe_meaning::read(s3, ops::start(Buf::Normed), hs) =~= x);
        }
    }
}

/// The expert numbers that were read back for the token in the hidden buffer.
pub open spec fn read_ids<V>(s: Contents<V>, b: Buf, len: nat) -> Seq<i32> {
    Seq::new(len, |j: int| (s.ids)(b, j))
}

/// The shares that were read back with them.
pub open spec fn read_shares<V>(s: Contents<V>, b: Buf, len: nat) -> Seq<u32> {
    Seq::new(len, |j: int| (s.shares)(b, j))
}

/// The token in the hidden buffer passes the layer: it is routed, and the rest
/// follows what routing left in the buffers.
pub open spec fn token_pass<V>(a: Arithmetic<V>, m: &MoeLayer, s: Contents<V>) -> Contents<V> {
    let r = moe_meaning::run(a, s, moe_forward::route_ops(m));
    let k = m.num_active as nat;
    moe_meaning::run(
        a,
        r,
        moe_forward::combine_ops(
            m,
            read_ids(r, Buf::MoeExpertIds, k),
            read_shares(r, Buf::MoeExpertWeights, k),
        ),
    )
}

/// The elements that a token's pass may write.
pub open spec fn pass_writes(m: &MoeLayer, b: Buf, i: int) -> bool {
    let hs = m.hidden_size as int;
    if is_scratch(b) {
        0 <= i < room(m, b)
    } else if b == Buf::Normed || b == Buf::Residual || b == Buf::Hidden {
        0 <= i < hs
    } else if b == Buf::MoeScores {
        0 <= i < m.num_experts
    } else {
        b == Buf::MoeLatent && m.has_fc1 && 0 <= i < m.gate_up_in_dim
    }
}

proof fn lemma_route<V>(a: Arithmetic<V>, m: &MoeLayer, s: Contents<V>, x: Seq<V>)
    requires
        x == moe_meaning::read(s, ops::start(Buf::Hidden), m.hidden_size as nat),
    ensures
        ({
            let t = moe_meaning::run(a, s, moe_forward::route_ops(m));
            let k = m.num_active as nat;
            &&& moe_meaning::read(t, ops::start(Buf::Normed), m.hidden_size as nat) == normed(
                a,
                m,
                x,
            )
            &&& moe_meaning::read(t, ops::start(Buf::Residual), m.hidden_size as nat) == x
            &&& read_ids(t, Buf::MoeExpertIds, k) == routed_ids(a, m, x)
            &&& read_shares(t, Buf::MoeExpertWeights, k) == routed_shares(a, m, x)
            &&& forall|b: Buf, i: int|
                !pass_writes(m, b, i) ==> #[trigger] (t.value)(b, i) == (s.value)(b, i)
        }),
{
    let l = moe_forward::route_ops(m);
    let hs = m.hidden_size as nat;
    let k = m.num_active as nat;
    reveal_with_fuel(moe_meaning::after, 6);
    let s1 = moe_meaning::step(a, s, l[0]);
    let s2 = moe_meaning::step(a, s1, l[1]);
    let s3 = moe_meaning::step(a, s2, l[2]);
    let s4 = moe_meaning::step(a, s3, l[3]);
    let t = moe_meaning::run(a, s, l);
    assert(t == s4);
    assert(moe_meaning::read(s2, ops::start(Buf::Normed), hs) =~= normed(a, m, x));
    assert(moe_meaning::read(s3, ops::start(Buf::MoeScores), m.num_experts as nat) =~= scores(
        a,
        m,
        x,
    ));
    assert(moe_meaning::read(t, ops::start(Buf::Normed), hs) =~= normed(a, m, x));
    assert(moe_meaning::read(t, ops::start(Buf::Residual), hs) =~= x);
    assert(read_ids(t, Buf::MoeExpertIds, k) =~= routed_ids(a, m, x));
    assert(read_shares(t, Buf::MoeExpertWeights, k) =~= routed_shares(a, m, x));
}

pub proof fn lemma_token_pass<V>(a: Arithmetic<V>, m: &MoeLayer, s: Contents<V>, x: Seq<V>)
    requires
        shaped(m),
        x == moe_meaning::read(s, ops::start(Buf::Hidden), m.hidden_size as nat),
    ensures
        ({
            let t = token_pass(a, m, s);
            &&& forall|i: int|
                0 <= i < m.hidden_size ==> #[trigger] (t.value)(Buf::Hidden, i) == layer_out(
                    a,
                    m,
                    x,
                    i,
                )
            &&& forall|b: Buf, i: int|
                !pass_writes(m, b, i) ==> #[trigger] (t.value)(b, i) == (s.value)(b, i)
        }),
{
    let hs = m.hidden_size as nat;
    let k = m.num_active as nat;
    let n = normed(a, m, x);
    let ids = routed_ids(a, m, x);
    let shares = routed_shares(a, m, x);
    lemma_route(a, m, s, x);
    let r = moe_meaning::run(a, s, moe_forward::route_ops(m));
    let total = moe_forward::accumulator(m);
    let latent_len = m.gate_up_in_dim as nat;
    let fc1 = if m.has_fc1 {
        seq![
            Op::Linear {
                out: ops::start(Buf::MoeLatent),
                matrix: ops::whole(Weight::Fc1Latent { layer: m.layer }),
                input: ops::start(Buf::Normed),
                out_dim: m.gate_up_in_dim,
                in_dim: m.hidden_size,
            },
        ]
    } else {
        Seq::empty()
    };
    let zero = seq![Op::Zero { dst: ops::start(total), len: m.gate_up_in_dim }];
    let experts = moe_forward::experts_ops(m, ids, shares, k);
    let shared = moe_forward::shared_ops(m);
    let last = seq![
        Op::ResidualAdd {
            out: ops::start(Buf::Hidden),
            a: ops::start(Buf::Residual),
            b: ops::start(Buf::FfnDown),
            len: m.hidden_size,
        },
    ];
    let fc2 = if m.has_fc2 {
        seq![
            Op::Linear {
                out: ops::start(Buf::FfnDown),
                matrix: ops::whole(Weight::Fc2Latent { layer: m.layer }),
                input: ops::start(Buf::MoeExpertOut),
                out_dim: m.hidden_size,
                in_dim: m.gate_up_in_dim,
            },
        ]
    } else {
        Seq::empty()
    };
    assert(moe_forward::combine_ops(m, ids, shares) =~= fc1 + zero + experts + fc2 + shared
        + last);
    moe_meaning::lemma_run_joined(a, r, fc1 + zero + experts + fc2 + shared, last);
    moe_meaning::lemma_run_joined(a, r, fc1 + zero + experts + fc2, shared);
    moe_meaning::lemma_run_joined(a, r, fc1 + zero + experts, fc2);
    moe_meaning::lemma_run_joined(a, r, fc1 + zero, experts);
    moe_meaning::lemma_run_joined(a, r, fc1, zero);
    let f = moe_meaning::run(a, r, fc1);
    if m.has_fc1 {
        assert(f == moe_meaning::step(a, r, fc1[0])) by {
            reveal_with_fuel(moe_meaning::after, 2);
        }
    } else {
        assert(f == r);
    }
    let z = moe_meaning::run(a, f, zero);
    assert(z == moe_meaning::step(a, f, zero[0])) by {
        reveal_with_fuel(moe_meaning::after, 2);
    }
    assert(moe_meaning::read(f, ops::start(Buf::Normed), hs) =~= n);
    assert(moe_meaning::read(z, ops::start(Buf::Normed), hs) =~= n);
    let inputs = latent(a, m, n);
    assert(moe_meaning::read(z, ops::start(moe_forward::expert_input(m)), latent_len) =~= inputs);
    lemma_experts(a, m, z, inputs, ids, shares, k);
    let e = moe_meaning::run(a, z, experts);
    let sum = routed_sum(a, m, x);
    assert(moe_meaning::read(e, ops::start(total), latent_len) =~= sum);
    let p = moe_meaning::run(a, e, fc2);
    if m.has_fc2 {
        assert(p == moe_meaning::step(a, e, fc2[0])) by {
            reveal_with_fuel(moe_meaning::after, 2);
        }
    } else {
        assert(p == e);
        assert forall|i: int| 0 <= i < hs implies (p.value)(Buf::FfnDown, i) == sum[i] by {
            assert(moe_meaning::read(e, ops::start(total), latent_len)[i] == (e.value)(total, i));
        }
    }
    assert(moe_meaning::read(p, ops::start(Buf::Normed), hs) =~= n);
    lemma_shared(a, m, p, n);
    let h = moe_meaning::run(a, p, shared);
    assert(token_pass(a, m, s) == moe_meaning::step(a, h, last[0])) by {
        reveal_with_fuel(moe_meaning::after, 2);
    }
    assert forall|i: int| 0 <= i < hs implies (h.value)(Buf::Residual, i) == x[i] by {
        assert(moe_meaning::read(r, ops::start(Buf::Residual), hs)[i] == (r.value)(
            Buf::Residual,
            i,
        ));
    }
}

/// A token's hidden state `x` leaves an expert layer as `x` plus the output of the
/// layer: its routed experts, each run with its own rows of the expert tensors and added
/// with its share, projected out of the experts' space where there is one, and the
/// shared expert. Nothing but the layer's scratch is written besides.
pub proof fn law_token_pass<V>(a: Arithmetic<V>, m: &MoeLayer, s: Contents<V>)
    requires
        shaped(m),
    ensures
        ({
            let x = moe_meaning::read(s, ops::start(Buf::Hidden), m.hidden_size as nat);
            let t = token_pass(a, m, s);
            &&& forall|i: int|
                0 <= i < m.hidden_size ==> #[trigger] (t.value)(Buf::Hidden, i) == layer_out(
                    a,
                    m,
                    x,
                    i,
                )
            &&& forall|b: Buf, i: int|
                !pass_writes(m, b, i) ==> #[trigger] (t.value)(b, i) == (s.value)(b, i)
        }),
{
    lemma_token_pass(
        a,
        m,
        s,
        moe_meaning::read(s, ops::start(Buf::Hidden), m.hidden_size as nat),
    );
}

// ---- token by token ----

/// The first `n` tokens of a batch pass the layer one after the other.
pub open spec fn one_by_one<V>(a: Arithmetic<V>, m: &MoeLayer, s: Contents<V>, n: nat) -> Contents<
    V,
>
    decreases n,
{
    if n == 0 {
        s
    } else {
        let t = (n - 1) as nat;
        let before = one_by_one(a, m, s, t);
        let moved = moe_meaning::step(a, before, moe_prefill_single::copy_in(m, t));
        moe_meaning::step(a, token_pass(a, m, moved), moe_prefill_single::copy_out(m, t))
    }
}

/// Token `t`'s hidden state.
pub open spec fn token<V>(m: &MoeLayer, s: Contents<V>, t: int) -> Seq<V> {
    moe_meaning::row_at(s, Buf::PrefillHidden, t, m.hidden_size as nat)
}

/// The first `n` tokens have passed the layer, and nothing behind them changed.
pub open spec fn passed<V>(
    a: Arithmetic<V>,
    m: &MoeLayer,
    s: Contents<V>,
    t: Contents<V>,
    n: int,
) -> bool {
    let hs = m.hidden_size as int;
    &&& forall|u: int, i: int|
        0 <= u < n && 0 <= i < hs ==> #[trigger] moe_meaning::cell(
            t,
            Buf::PrefillHidden,
            u,
            hs,
            i,
        ) == layer_out(a, m, token(m, s, u), i)
    &&& forall|j: int|
        n * hs <= j ==> #[trigger] (t.value)(Buf::PrefillHidden, j) == (s.value)(
            Buf::PrefillHidden,
            j,
        )
}

pub proof fn lemma_one_by_one<V>(a: Arithmetic<V>, m: &MoeLayer, s: Contents<V>, n: nat)
    requires
        direct(m),
        n * m.hidden_size <= usize::MAX,
    ensures
        passed(a, m, s, one_by_one(a, m, s, n), n as int),
    decreases n,
{
    if n > 0 {
        let t = (n - 1) as nat;
        let hs = m.hidden_size as int;
        arith::lemma_scaled_index(t as int, n as int, hs);
        lemma_one_by_one(a, m, s, t);
        let before = one_by_one(a, m, s, t);
        let moved = moe_meaning::step(a, before, moe_prefill_single::copy_in(m, t));
        let x = token(m, s, t as int);
        assert(moe_meaning::read(moved, ops::start(Buf::Hidden), hs as nat) =~= x);
        lemma_token_pass(a, m, moved, x);
        let done = token_pass(a, m, moved);
        let r = one_by_one(a, m, s, n);
        assert forall|u: int, i: int| 0 <= u < n && 0 <= i < hs implies #[trigger]
        moe_meaning::cell(r, Buf::PrefillHidden, u, hs, i) == layer_out(
            a,
            m,
            token(m, s, u),
            i,
        ) by {
            moe_meaning::lemma_rows_apart(u, t as int, hs, i);
            if u < t {
                assert(moe_meaning::cell(before, Buf::PrefillHidden, u, hs, i) == layer_out(
                    a,
                    m,
                    token(m, s, u),
                    i,
                ));
            }
        }
        assert(t * hs + hs == n * hs) by (nonlinear_arith)
            requires
                t + 1 == n,
        ;
    }
}

/// Two ways through the layer leave the same batch.
pub proof fn lemma_passed_agree<V>(
    a: Arithmetic<V>,
    m: &MoeLayer,
    s: Contents<V>,
    p: Contents<V>,
    q: Contents<V>,
    n: nat,
)
    requires
        passed(a, m, s, p, n as int),
        passed(a, m, s, q, n as int),
    ensures
        forall|j: int|
            0 <= j ==> #[trigger] (p.value)(Buf::PrefillHidden, j) == (q.value)(
                Buf::PrefillHidden,
                j,
            ),
{
    let hs = m.hidden_size as int;
    assert forall|j: int| 0 <= j implies #[trigger] (p.value)(Buf::PrefillHidden, j) == (q.value)(
        Buf::PrefillHidden,
        j,
    ) by {
        if j < n * hs {
            assert(hs > 0) by (nonlinear_arith)
                requires
                    0 <= j < n * hs,
                    n >= 0,
                    hs >= 0,
            ;
            let (u, i) = (j / hs, j % hs);
            vstd::arithmetic::div_mod::lemma_fundamental_div_mod(j, hs);
            vstd::arithmetic::div_mod::lemma_mod_bound(j, hs);
            vstd::arithmetic::div_mod::lemma_div_pos_is_pos(j, hs);
            assert(n * hs == hs * n && hs * u == u * hs) by (nonlinear_arith);
            vstd::arithmetic::div_mod::lemma_multiply_divide_lt(j, hs, n as int);
            assert(moe_meaning::cell(p, Buf::PrefillHidden, u, hs, i) == moe_meaning::cell(
                q,
                Buf::PrefillHidden,
                u,
                hs,
                i,
            ));
        }
    }
}

} // verus!
