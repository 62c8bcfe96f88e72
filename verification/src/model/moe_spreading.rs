//! A prefill batch whose experts are spread over GPUs computes what its tokens compute
//! one by one.

use vstd::prelude::*;
use crate::arith;
use crate::model::moe_forward;
use crate::model::moe_forward::MoeLayer;
use crate::model::moe_meaning;
use crate::model::moe_meaning::{Arithmetic, Contents};
use crate::model::moe_prefill;
use crate::model::moe_prefill::{LocalExperts, MoePrefillPlan};
use crate::model::moe_token;
use crate::moe_p2p::MAX_ACTIVE_EXPERTS;
use crate::ops;
use crate::ops::{Buf, Inst, Loc, Op, WLoc, Weight, ONE_F32};

verus! {

// ---- instructions ----

/// What a list of instructions does, apart from its signals.
pub open spec fn ops_of(list: Seq<Inst>) -> Seq<Op> {
    Seq::new(list.len(), |i: int| list[i].op)
}

/// The contents after a list of instructions.
pub open spec fn insts_run<V>(a: Arithmetic<V>, s: Contents<V>, list: Seq<Inst>) -> Contents<V> {
    moe_meaning::run(a, s, ops_of(list))
}

proof fn lemma_insts_joined<V>(a: Arithmetic<V>, s: Contents<V>, p: Seq<Inst>, q: Seq<Inst>)
    ensures
        insts_run(a, s, p + q) == insts_run(a, insts_run(a, s, p), q),
{
    assert(ops_of(p + q) =~= ops_of(p) + ops_of(q));
    moe_meaning::lemma_run_joined(a, s, ops_of(p), ops_of(q));
}

// ---- routing ----

/// Place `j` of token `t`'s routing.
pub open spec fn id_cell<V>(s: Contents<V>, t: int, j: int) -> i32 {
    (s.ids)(Buf::PerTokenExpertIds, t * MAX_ACTIVE_EXPERTS + j)
}

pub open spec fn share_cell<V>(s: Contents<V>, t: int, j: int) -> u32 {
    (s.shares)(Buf::PerTokenExpertWeights, t * MAX_ACTIVE_EXPERTS + j)
}

/// The first `n` tokens are routed.
pub open spec fn routed<V>(
    a: Arithmetic<V>,
    m: &MoeLayer,
    s: Contents<V>,
    t: Contents<V>,
    n: int,
) -> bool {
    let hs = m.hidden_size as int;
    &&& forall|u: int, i: int|
        0 <= u < n && 0 <= i < hs ==> #[trigger] moe_meaning::cell(
            t,
            Buf::PrefillMoeNormed,
            u,
            hs,
            i,
        ) == moe_token::normed(a, m, moe_token::token(m, s, u))[i]
    &&& forall|u: int, j: int|
        0 <= u < n && 0 <= j < m.num_active ==> #[trigger] id_cell(t, u, j)
            == moe_token::routed_ids(a, m, moe_token::token(m, s, u))[j]
    &&& forall|u: int, j: int|
        0 <= u < n && 0 <= j < m.num_active ==> #[trigger] share_cell(t, u, j)
            == moe_token::routed_shares(a, m, moe_token::token(m, s, u))[j]
    &&& forall|b: Buf, i: int|
        b == Buf::PrefillHidden || b == Buf::ZeroBuffer ==> #[trigger] (t.value)(b, i) == (
        s.value)(b, i)
}

proof fn lemma_route_tokens<V>(a: Arithmetic<V>, m: &MoeLayer, s: Contents<V>, n: nat)
    requires
        moe_token::direct(m),
        m.num_active <= MAX_ACTIVE_EXPERTS,
        n * m.hidden_size <= usize::MAX,
        n * MAX_ACTIVE_EXPERTS <= usize::MAX,
    ensures
        routed(a, m, s, insts_run(a, s, moe_prefill::route_tokens(m, n)), n as int),
    decreases n,
{
    if n > 0 {
        let t = (n - 1) as nat;
        let hs = m.hidden_size as int;
        let k = MAX_ACTIVE_EXPERTS as int;
        arith::lemma_scaled_index(t as int, n as int, hs);
        lemma_route_tokens(a, m, s, t);
        let first = moe_prefill::route_tokens(m, t);
        let one = moe_prefill::route_token(m, t);
        lemma_insts_joined(a, s, first, one);
        let s0 = insts_run(a, s, first);
        let l = ops_of(one);
        reveal_with_fuel(moe_meaning::after, 4);
        let s1 = moe_meaning::step(a, s0, l[0]);
        let s2 = moe_meaning::step(a, s1, l[1]);
        let s3 = moe_meaning::step(a, s2, l[2]);
        assert(insts_run(a, s0, one) == s3);
        let x = moe_token::token(m, s, t as int);
        let input = Loc { buf: Buf::PrefillHidden, offset: (t * m.hidden_size as nat) as usize };
        assert(moe_meaning::read(s0, input, hs as nat) =~= x);
        assert(moe_meaning::read(s1, moe_prefill::normed_slot(m, t), hs as nat)
            =~= moe_token::normed(a, m, x));
        assert(moe_meaning::read(s2, ops::start(Buf::MoeScores), m.num_experts as nat)
            =~= moe_token::scores(a, m, x));
        assert forall|u: int, i: int| 0 <= u < n && 0 <= i < hs implies #[trigger]
        moe_meaning::cell(s3, Buf::PrefillMoeNormed, u, hs, i) == moe_token::normed(
            a,
            m,
            moe_token::token(m, s, u),
        )[i] by {
            moe_meaning::lemma_rows_apart(u, t as int, hs, i);
            if u < t {
                assert(moe_meaning::cell(s0, Buf::PrefillMoeNormed, u, hs, i)
                    == moe_token::normed(a, m, moe_token::token(m, s, u))[i]);
            }
        }
        assert forall|u: int, j: int| 0 <= u < n && 0 <= j < m.num_active implies #[trigger]
        id_cell(s3, u, j) == moe_token::routed_ids(a, m, moe_token::token(m, s, u))[j] by {
            if u < t {
                assert(id_cell(s0, u, j) == moe_token::routed_ids(
                    a,
                    m,
                    moe_token::token(m, s, u),
                )[j]);
            }
        }
        assert forall|u: int, j: int| 0 <= u < n && 0 <= j < m.num_active implies #[trigger]
        share_cell(s3, u, j) == moe_token::routed_shares(a, m, moe_token::token(m, s, u))[j] by {
            if u < t {
                assert(share_cell(s0, u, j) == moe_token::routed_shares(
                    a,
                    m,
                    moe_token::token(m, s, u),
                )[j]);
            }
        }
    }
}

// ---- the experts of one GPU ----

/// Element `i` after those of a token's first `count` routed experts that live on
/// `gpu` were added to `acc`. Expert `e` lives on `home[e]`.
pub open spec fn gpu_sum<V>(
    a: Arithmetic<V>,
    m: &MoeLayer,
    x: Seq<V>,
    ids: Seq<i32>,
    shares: Seq<u32>,
    home: Seq<nat>,
    gpu: nat,
    acc: V,
    i: int,
    count: nat,
) -> V
    decreases count,
{
    if count == 0 {
        acc
    } else {
        let j = count - 1;
        let before = gpu_sum(a, m, x, ids, shares, home, gpu, acc, i, j as nat);
        if home[ids[j] as int] == gpu {
            (a.sum)(
                before,
                (a.scaled)(shares[j], moe_token::expert_out(a, m, x, ids[j] as nat, i)),
            )
        } else {
            before
        }
    }
}

/// Two places hold the same matrix.
pub open spec fn same_matrix<V>(a: Arithmetic<V>, p: WLoc, q: WLoc) -> bool {
    forall|x: Seq<V>, i: int| #[trigger] (a.product)(p, x, i) == (a.product)(q, x, i)
}

pub open spec fn local_gate(m: &MoeLayer, local: &LocalExperts, slot: nat) -> WLoc {
    WLoc {
        weight: Weight::LocalExpertGateUp { layer: m.layer },
        byte_offset: (slot * local.gate_up_expert_stride as nat) as usize,
    }
}

pub open spec fn local_up(m: &MoeLayer, local: &LocalExperts, slot: nat) -> WLoc {
    if m.has_gate_proj {
        WLoc {
            weight: Weight::LocalExpertGateUp { layer: m.layer },
            byte_offset: (slot * local.gate_up_expert_stride as nat
                + m.expert_intermediate_size as nat * local.gate_up_row_stride as nat) as usize,
        }
    } else {
        local_gate(m, local, slot)
    }
}

pub open spec fn local_down(m: &MoeLayer, local: &LocalExperts, slot: nat) -> WLoc {
    WLoc {
        weight: Weight::LocalExpertDown { layer: m.layer },
        byte_offset: (slot * local.down_expert_stride as nat) as usize,
    }
}

/// Local slot `slot` of GPU 0 holds `expert`.
pub open spec fn holds<V>(
    a: Arithmetic<V>,
    m: &MoeLayer,
    local: &LocalExperts,
    slot: nat,
    expert: nat,
) -> bool {
    &&& m.has_gate_proj ==> same_matrix(
        a,
        local_gate(m, local, slot),
        moe_token::gate_of(m, expert)->0,
    )
    &&& same_matrix(a, local_up(m, local, slot), moe_token::up_of(m, expert))
    &&& same_matrix(a, local_down(m, local, slot), moe_token::down_of(m, expert))
}

/// GPU 0 has a slot for the experts that live on it, and each slot holds its expert.
pub open spec fn spread<V>(
    a: Arithmetic<V>,
    m: &MoeLayer,
    local: &LocalExperts,
    home: Seq<nat>,
    num_gpus: nat,
) -> bool {
    &&& local.slot_map@.len() == m.num_experts
    &&& home.len() == m.num_experts
    &&& forall|e: int| 0 <= e < m.num_experts ==> (#[trigger] home[e]) < num_gpus
    &&& forall|e: int|
        0 <= e < m.num_experts ==> ((#[trigger] local.slot_map@[e]) is Some <==> home[e] == 0)
    &&& forall|e: int|
        0 <= e < m.num_experts && (#[trigger] local.slot_map@[e]) is Some ==> holds(
            a,
            m,
            local,
            local.slot_map@[e]->0 as nat,
            e as nat,
        )
}

proof fn lemma_local_expert<V>(
    a: Arithmetic<V>,
    m: &MoeLayer,
    local: &LocalExperts,
    s: Contents<V>,
    x: Seq<V>,
    t: nat,
    slot: nat,
    expert: nat,
    share: u32,
)
    requires
        moe_token::direct(m),
        t * m.hidden_size <= usize::MAX,
        x == moe_meaning::row_at(s, Buf::PrefillMoeNormed, t as int, m.hidden_size as nat),
        holds(a, m, local, slot, expert),
    ensures
        ({
            let r = insts_run(a, s, moe_prefill::local_expert(m, local, t, slot, share));
            &&& moe_token::kept(s, r)
            &&& forall|i: int|
                0 <= i < m.hidden_size ==> #[trigger] (r.value)(Buf::FfnDown, i) == (a.sum)(
                    (s.value)(Buf::FfnDown, i),
                    (a.scaled)(share, moe_token::expert_out(a, m, x, expert, i)),
                )
        }),
{
    let hs = m.hidden_size as nat;
    let eis = m.expert_intermediate_size as nat;
    arith::lemma_mul_mono(0, t as int, hs as int);
    let l = ops_of(moe_prefill::local_expert(m, local, t, slot, share));
    let act = moe_token::inner(
        a,
        moe_token::gate_of(m, expert),
        moe_token::up_of(m, expert),
        x,
        eis,
    );
    reveal_with_fuel(moe_meaning::after, 6);
    let s1 = moe_meaning::step(a, s, l[0]);
    let s2 = moe_meaning::step(a, s1, l[1]);
    let s3 = moe_meaning::step(a, s2, l[2]);
    let s4 = moe_meaning::step(a, s3, l[3]);
    assert(moe_meaning::read(s, moe_prefill::normed_slot(m, t), hs) =~= x);
    if m.has_gate_proj {
        let s5 = moe_meaning::step(a, s4, l[4]);
        assert(moe_meaning::run(a, s, l) == s5);
        assert(moe_meaning::read(s1, moe_prefill::normed_slot(m, t), hs) =~= x);
        assert(moe_meaning::read(s3, ops::start(Buf::MoeExpertAct), eis) =~= act);
    } else {
        assert(moe_meaning::run(a, s, l) == s4);
        assert(moe_meaning::read(s2, ops::start(Buf::MoeExpertAct), eis) =~= act);
    }
}

proof fn lemma_local_experts<V>(
    a: Arithmetic<V>,
    m: &MoeLayer,
    local: &LocalExperts,
    home: Seq<nat>,
    num_gpus: nat,
    s: Contents<V>,
    x: Seq<V>,
    ids: Seq<i32>,
    shares: Seq<u32>,
    own_ids: Seq<i32>,
    own_shares: Seq<u32>,
    t: nat,
    count: nat,
)
    requires
        moe_token::direct(m),
        t * m.hidden_size <= usize::MAX,
        x == moe_meaning::row_at(s, Buf::PrefillMoeNormed, t as int, m.hidden_size as nat),
        spread(a, m, local, home, num_gpus),
        forall|j: int|
            0 <= j < count ==> (#[trigger] own_ids[j]) == ids[t * MAX_ACTIVE_EXPERTS + j],
        forall|j: int|
            0 <= j < count ==> (#[trigger] own_shares[j]) == shares[t * MAX_ACTIVE_EXPERTS + j],
        forall|j: int| 0 <= j < count ==> 0 <= (#[trigger] own_ids[j]) < m.num_experts,
    ensures
        ({
            let r = insts_run(
                a,
                s,
                moe_prefill::local_experts(m, local, ids, shares, t, count),
            );
            &&& moe_token::kept(s, r)
            &&& forall|i: int|
                0 <= i < m.hidden_size ==> #[trigger] (r.value)(Buf::FfnDown, i) == gpu_sum(
                    a,
                    m,
                    x,
                    own_ids,
                    own_shares,
                    home,
                    0,
                    (s.value)(Buf::FfnDown, i),
                    i,
                    count,
                )
        }),
    decreases count,
{
    if count > 0 {
        let p = (count - 1) as nat;
        let before = moe_prefill::local_experts(m, local, ids, shares, t, p);
        lemma_local_experts(
            a,
            m,
            local,
            home,
            num_gpus,
            s,
            x,
            ids,
            shares,
            own_ids,
            own_shares,
            t,
            p,
        );
        let e = own_ids[count - 1] as int;
        let b = insts_run(a, s, before);
        assert(local.slot_map@[e] is Some <==> home[e] == 0);
        if local.slot_map@[e] is Some {
            let slot = local.slot_map@[e]->0 as nat;
            let one = moe_prefill::local_expert(m, local, t, slot, own_shares[count - 1]);
            lemma_insts_joined(a, s, before, one);
            assert(moe_meaning::row_at(
                b,
                Buf::PrefillMoeNormed,
                t as int,
                m.hidden_size as nat,
            ) =~= x);
            lemma_local_expert(
                a,
                m,
                local,
                b,
                x,
                t,
                slot,
                e as nat,
                own_shares[count - 1],
            );
        }
    } else {
        assert(ops_of(moe_prefill::local_experts(m, local, ids, shares, t, 0)) =~= Seq::empty());
    }
}

// ---- GPU 0's part ----

/// Element `i` of what `gpu` found for token `t`.
pub open spec fn slot_cell<V>(
    s: Contents<V>,
    m: &MoeLayer,
    t: int,
    num_gpus: int,
    gpu: int,
    i: int,
) -> V {
    moe_meaning::cell(s, Buf::OutputSlots, t * num_gpus + gpu, m.hidden_size as int, i)
}

/// Rows that a batch reads are as before.
pub open spec fn inputs_kept<V>(s: Contents<V>, t: Contents<V>) -> bool {
    forall|b: Buf, i: int|
        b == Buf::PrefillHidden || b == Buf::PrefillMoeNormed || b == Buf::ZeroBuffer
            ==> #[trigger] (t.value)(b, i) == (s.value)(b, i)
}

/// The zero buffer holds zeros.
pub open spec fn zeros<V>(a: Arithmetic<V>, m: &MoeLayer, s: Contents<V>) -> bool {
    forall|i: int|
        0 <= i < m.hidden_size ==> #[trigger] (s.value)(Buf::ZeroBuffer, i) == a.zero
}

proof fn lemma_slot_rows(t: int, u: int, num_gpus: int, gpu: int, other: int)
    requires
        0 <= gpu < num_gpus,
        0 <= other < num_gpus,
    ensures
        t * num_gpus + gpu == u * num_gpus + other <==> t == u && gpu == other,
{
    moe_meaning::lemma_rows_apart(t, u, num_gpus, gpu);
}

proof fn lemma_local_token<V>(
    a: Arithmetic<V>,
    m: &MoeLayer,
    local: &LocalExperts,
    home: Seq<nat>,
    num_gpus: nat,
    s: Contents<V>,
    x: Seq<V>,
    ids: Seq<i32>,
    shares: Seq<u32>,
    own_ids: Seq<i32>,
    own_shares: Seq<u32>,
    t: nat,
    n: nat,
)
    requires
        moe_token::direct(m),
        moe_prefill::batch_ok(m, n, num_gpus),
        t < n,
        x == moe_meaning::row_at(s, Buf::PrefillMoeNormed, t as int, m.hidden_size as nat),
        zeros(a, m, s),
        spread(a, m, local, home, num_gpus),
        forall|j: int|
            0 <= j < m.num_active ==> (#[trigger] own_ids[j]) == ids[t * MAX_ACTIVE_EXPERTS + j],
        forall|j: int|
            0 <= j < m.num_active ==> (#[trigger] own_shares[j]) == shares[t * MAX_ACTIVE_EXPERTS
                + j],
        forall|j: int| 0 <= j < m.num_active ==> 0 <= (#[trigger] own_ids[j]) < m.num_experts,
    ensures
        ({
            let r = insts_run(
                a,
                s,
                moe_prefill::local_token(m, local, ids, shares, t, num_gpus),
            );
            &&& inputs_kept(s, r)
            &&& forall|u: int, g: int, i: int|
                0 <= u && 0 <= g < num_gpus && 0 <= i < m.hidden_size ==> #[trigger] slot_cell(
                    r,
                    m,
                    u,
                    num_gpus as int,
                    g,
                    i,
                ) == if u == t && g == 0 {
                    gpu_sum(
                        a,
                        m,
                        x,
                        own_ids,
                        own_shares,
                        home,
                        0,
                        a.zero,
                        i,
                        m.num_active as nat,
                    )
                } else {
                    slot_cell(s, m, u, num_gpus as int, g, i)
                }
        }),
{
    let hs = m.hidden_size as int;
    let k = m.num_active as nat;
    arith::lemma_scaled_index(t as int, n as int, hs);
    arith::lemma_scaled_index(t as int, n as int, num_gpus as int);
    arith::lemma_scaled_index((t * num_gpus) as int, (n * num_gpus) as int, hs);
    let first = seq![
        ops::copy_inst(ops::start(Buf::FfnDown), ops::start(Buf::ZeroBuffer), hs as nat),
    ];
    let experts = moe_prefill::local_experts(m, local, ids, shares, t, k);
    let slot = Loc {
        buf: Buf::OutputSlots,
        offset: moe_prefill::output_slot(m, t, num_gpus, 0) as usize,
    };
    let last = seq![ops::copy_inst(slot, ops::start(Buf::FfnDown), hs as nat)];
    assert(moe_prefill::local_token(m, local, ids, shares, t, num_gpus) =~= first + experts
        + last);
    lemma_insts_joined(a, s, first + experts, last);
    lemma_insts_joined(a, s, first, experts);
    reveal_with_fuel(moe_meaning::after, 2);
    let s1 = insts_run(a, s, first);
    assert(s1 == moe_meaning::step(a, s, first[0].op));
    assert(moe_meaning::row_at(s1, Buf::PrefillMoeNormed, t as int, hs as nat) =~= x);
    lemma_local_experts(
        a,
        m,
        local,
        home,
        num_gpus,
        s1,
        x,
        ids,
        shares,
        own_ids,
        own_shares,
        t,
        k,
    );
    let s2 = insts_run(a, s1, experts);
    let r = insts_run(a, s2, last);
    assert(r == moe_meaning::step(a, s2, last[0].op));
    assert forall|u: int, g: int, i: int| 0 <= u && 0 <= g < num_gpus && 0 <= i < hs implies #[trigger]
    slot_cell(r, m, u, num_gpus as int, g, i) == if u == t && g == 0 {
        gpu_sum(a, m, x, own_ids, own_shares, home, 0, a.zero, i, k)
    } else {
        slot_cell(s, m, u, num_gpus as int, g, i)
    } by {
        lemma_slot_rows(u, t as int, num_gpus as int, g, 0);
        moe_meaning::lemma_rows_apart(u * num_gpus + g, (t * num_gpus) as int, hs, i);
        assert((s1.value)(Buf::FfnDown, i) == (s.value)(Buf::ZeroBuffer, i));
    }
}

/// The first `j` lists run in turn.
pub open spec fn lists_run<V>(
    a: Arithmetic<V>,
    s: Contents<V>,
    lists: Seq<Vec<Inst>>,
    j: nat,
) -> Contents<V>
    decreases j,
{
    if j == 0 {
        s
    } else {
        insts_run(a, lists_run(a, s, lists, (j - 1) as nat), lists[j - 1]@)
    }
}

// ---- the sum over GPUs ----

/// Element `i` of the sum over the first `count` GPUs' results for token `t`.
pub open spec fn slots_sum<V>(
    a: Arithmetic<V>,
    m: &MoeLayer,
    s: Contents<V>,
    t: int,
    num_gpus: int,
    acc: V,
    i: int,
    count: nat,
) -> V
    decreases count,
{
    if count == 0 {
        acc
    } else {
        (a.sum)(
            slots_sum(a, m, s, t, num_gpus, acc, i, (count - 1) as nat),
            (a.scaled)(ONE_F32, slot_cell(s, m, t, num_gpus, count - 1, i)),
        )
    }
}

proof fn lemma_sum_slots<V>(
    a: Arithmetic<V>,
    m: &MoeLayer,
    s: Contents<V>,
    t: nat,
    n: nat,
    num_gpus: nat,
    count: nat,
)
    requires
        moe_token::direct(m),
        moe_prefill::batch_ok(m, n, num_gpus),
        t < n,
        count <= num_gpus,
    ensures
        ({
            let r = insts_run(a, s, moe_prefill::sum_slots(m, t, num_gpus, count));
            &&& moe_token::kept(s, r)
            &&& forall|i: int|
                0 <= i < m.hidden_size ==> #[trigger] (r.value)(Buf::FfnDown, i) == slots_sum(
                    a,
                    m,
                    s,
                    t as int,
                    num_gpus as int,
                    (s.value)(Buf::FfnDown, i),
                    i,
                    count,
                )
        }),
    decreases count,
{
    if count > 0 {
        let hs = m.hidden_size as int;
        let g = (count - 1) as nat;
        lemma_sum_slots(a, m, s, t, n, num_gpus, g);
        let first = moe_prefill::sum_slots(m, t, num_gpus, g);
        let at = Loc {
            buf: Buf::OutputSlots,
            offset: moe_prefill::output_slot(m, t, num_gpus, g) as usize,
        };
        let last = seq![
            ops::copy_inst(ops::start(Buf::MoeExpertOut), at, hs as nat),
            ops::scale_add_inst(
                ops::start(Buf::FfnDown),
                ops::start(Buf::MoeExpertOut),
                ONE_F32,
                hs as nat,
            ),
        ];
        assert(moe_prefill::sum_slots(m, t, num_gpus, count) =~= first + last);
        lemma_insts_joined(a, s, first, last);
        let b = insts_run(a, s, first);
        arith::lemma_scaled_index(t as int, n as int, num_gpus as int);
        arith::lemma_scaled_index((t * num_gpus + g) as int, (n * num_gpus) as int, hs);
        reveal_with_fuel(moe_meaning::after, 3);
        let s1 = moe_meaning::step(a, b, last[0].op);
        let s2 = moe_meaning::step(a, s1, last[1].op);
        assert(insts_run(a, b, last) == s2);
        assert forall|i: int| 0 <= i < hs implies #[trigger] (s2.value)(Buf::FfnDown, i)
            == slots_sum(
            a,
            m,
            s,
            t as int,
            num_gpus as int,
            (s.value)(Buf::FfnDown, i),
            i,
            count,
        ) by {
            assert((b.value)(Buf::OutputSlots, (t * num_gpus + g) * hs + i) == slot_cell(
                s,
                m,
                t as int,
                num_gpus as int,
                g as int,
                i,
            ));
        }
    } else {
        assert(ops_of(moe_prefill::sum_slots(m, t, num_gpus, 0)) =~= Seq::empty());
    }
}

proof fn lemma_shared_insts<V>(a: Arithmetic<V>, m: &MoeLayer, s: Contents<V>, x: Seq<V>)
    requires
        x == moe_meaning::read(s, ops::start(Buf::Hidden), m.hidden_size as nat),
    ensures
        ({
            let r = insts_run(a, s, moe_prefill::shared_insts(m));
            &&& forall|b: Buf, i: int|
                !moe_token::is_scratch(b) && b != Buf::Normed ==> #[trigger] (r.value)(b, i) == (
                s.value)(b, i)
            &&& forall|i: int|
                0 <= i < m.hidden_size ==> #[trigger] (r.value)(Buf::FfnDown, i)
                    == moe_token::with_shared(
                    a,
                    m,
                    moe_token::normed(a, m, x),
                    (s.value)(Buf::FfnDown, i),
                    i,
                )
        }),
{
    let l = ops_of(moe_prefill::shared_insts(m));
    if m.has_shared {
        let first = seq![
            Op::RmsNorm {
                out: ops::start(Buf::Normed),
                input: ops::start(Buf::Hidden),
                weight: m.norm(),
                dim: m.hidden_size,
                eps: m.eps,
                one_plus_w: m.one_plus_w,
            },
        ];
        let rest = moe_forward::shared_ops(m);
        assert(l =~= first + rest);
        moe_meaning::lemma_run_joined(a, s, first, rest);
        let s1 = moe_meaning::run(a, s, first);
        assert(s1 == moe_meaning::step(a, s, first[0])) by {
            reveal_with_fuel(moe_meaning::after, 2);
        }
        let n = moe_token::normed(a, m, x);
        assert(moe_meaning::read(s1, ops::start(Buf::Normed), m.hidden_size as nat) =~= n);
        moe_token::lemma_shared(a, m, s1, n);
    } else {
        assert(l =~= Seq::empty());
        reveal_with_fuel(moe_meaning::after, 1);
    }
}

/// What the sum over GPUs reads, besides the token itself, is as before.
pub open spec fn results_kept<V>(s: Contents<V>, t: Contents<V>) -> bool {
    forall|b: Buf, i: int|
        b == Buf::OutputSlots || b == Buf::ZeroBuffer ==> #[trigger] (t.value)(b, i) == (s.value)(
            b,
            i,
        )
}

/// The sum over all GPUs' results for token `t`.
pub open spec fn gpus_sum<V>(
    a: Arithmetic<V>,
    m: &MoeLayer,
    s: Contents<V>,
    t: int,
    num_gpus: nat,
) -> Seq<V> {
    Seq::new(
        m.hidden_size as nat,
        |i: int| slots_sum(a, m, s, t, num_gpus as int, a.zero, i, num_gpus),
    )
}

/// Element `i` of token `t`'s new hidden state, put together from the GPUs' results.
pub open spec fn combined<V>(
    a: Arithmetic<V>,
    m: &MoeLayer,
    s: Contents<V>,
    t: int,
    num_gpus: nat,
    i: int,
) -> V {
    let x = moe_token::token(m, s, t);
    (a.sum)(
        x[i],
        moe_token::with_shared(
            a,
            m,
            moe_token::normed(a, m, x),
            moe_token::projected(a, m, gpus_sum(a, m, s, t, num_gpus), i),
            i,
        ),
    )
}

#[verifier::rlimit(30)]
proof fn lemma_combine_token<V>(
    a: Arithmetic<V>,
    m: &MoeLayer,
    s: Contents<V>,
    t: nat,
    n: nat,
    num_gpus: nat,
)
    requires
        moe_token::direct(m),
        moe_prefill::batch_ok(m, n, num_gpus),
        t < n,
        zeros(a, m, s),
    ensures
        ({
            let hs = m.hidden_size as int;
            let r = insts_run(a, s, moe_prefill::combine_token(m, t, num_gpus));
            &&& results_kept(s, r)
            &&& forall|i: int|
                0 <= i < hs ==> #[trigger] moe_meaning::cell(
                    r,
                    Buf::PrefillHidden,
                    t as int,
                    hs,
                    i,
                ) == combined(a, m, s, t as int, num_gpus, i)
            &&& forall|j: int|
                !(t * hs <= j < t * hs + hs) ==> #[trigger] (r.value)(Buf::PrefillHidden, j) == (
                s.value)(Buf::PrefillHidden, j)
        }),
{
    let hs = m.hidden_size as int;
    arith::lemma_scaled_index(t as int, n as int, hs);
    let token = Loc { buf: Buf::PrefillHidden, offset: (t * hs) as usize };
    let first = seq![
        ops::copy_inst(ops::start(Buf::Hidden), token, hs as nat),
        ops::copy_inst(ops::start(Buf::Residual), ops::start(Buf::Hidden), hs as nat),
        ops::copy_inst(ops::start(Buf::FfnDown), ops::start(Buf::ZeroBuffer), hs as nat),
    ];
    let slots = moe_prefill::sum_slots(m, t, num_gpus, num_gpus);
    let shared = moe_prefill::shared_insts(m);
    let last = seq![
        ops::plain(
            ops::blocks(hs as nat),
            Op::ResidualAdd {
                out: ops::start(Buf::Hidden),
                a: ops::start(Buf::Residual),
                b: ops::start(Buf::FfnDown),
                len: m.hidden_size,
            },
        ),
        ops::copy_inst(token, ops::start(Buf::Hidden), hs as nat),
    ];
    let fc2 = if m.has_fc2 {
        seq![
            ops::copy_inst(ops::start(Buf::MoeExpertOut), ops::start(Buf::FfnDown), hs as nat),
            ops::linear_inst(
                ops::start(Buf::FfnDown),
                ops::whole(Weight::Fc2Latent { layer: m.layer }),
                ops::start(Buf::MoeExpertOut),
                hs as nat,
                hs as nat,
            ),
        ]
    } else {
        Seq::empty()
    };
    let l = moe_prefill::combine_token(m, t, num_gpus);
    assert(l =~= first + slots + fc2 + shared + last);
    lemma_insts_joined(a, s, first + slots + fc2 + shared, last);
    lemma_insts_joined(a, s, first + slots + fc2, shared);
    lemma_insts_joined(a, s, first + slots, fc2);
    lemma_insts_joined(a, s, first, slots);
    let x = moe_token::token(m, s, t as int);
    let f = insts_run(a, s, first);
    let f1 = moe_meaning::step(a, s, first[0].op);
    let f2 = moe_meaning::step(a, f1, first[1].op);
    let f3 = moe_meaning::step(a, f2, first[2].op);
    assert(f == f3) by {
        reveal_with_fuel(moe_meaning::after, 4);
        assert(ops_of(first)[0] == first[0].op);
        assert(ops_of(first)[1] == first[1].op);
        assert(ops_of(first)[2] == first[2].op);
    }
    lemma_sum_slots(a, m, f, t, n, num_gpus, num_gpus);
    let g = insts_run(a, f, slots);
    let sum = gpus_sum(a, m, s, t as int, num_gpus);
    assert forall|i: int| 0 <= i < hs implies #[trigger] (g.value)(Buf::FfnDown, i) == sum[i] by {
        assert((f.value)(Buf::FfnDown, i) == (s.value)(Buf::ZeroBuffer, i));
        lemma_slots_sum_same(a, m, s, f, t as int, num_gpus as int, a.zero, i, num_gpus);
    }
    let p = insts_run(a, g, fc2);
    if m.has_fc2 {
        let g1 = moe_meaning::step(a, g, fc2[0].op);
        assert(p == moe_meaning::step(a, g1, fc2[1].op)) by {
            reveal_with_fuel(moe_meaning::after, 3);
            assert(ops_of(fc2)[0] == fc2[0].op);
            assert(ops_of(fc2)[1] == fc2[1].op);
        }
        assert(moe_meaning::read(g1, ops::start(Buf::MoeExpertOut), hs as nat) =~= sum);
    } else {
        assert(ops_of(fc2) =~= Seq::empty());
        assert(p == g);
    }
    assert(moe_meaning::read(p, ops::start(Buf::Hidden), hs as nat) =~= x);
    lemma_shared_insts(a, m, p, x);
    let h = insts_run(a, p, shared);
    let h1 = moe_meaning::step(a, h, last[0].op);
    let r = moe_meaning::step(a, h1, last[1].op);
    assert(insts_run(a, s, l) == r) by {
        reveal_with_fuel(moe_meaning::after, 3);
        assert(ops_of(last)[0] == last[0].op);
        assert(ops_of(last)[1] == last[1].op);
    }
    assert forall|i: int| 0 <= i < hs implies #[trigger] moe_meaning::cell(
        r,
        Buf::PrefillHidden,
        t as int,
        hs,
        i,
    ) == combined(a, m, s, t as int, num_gpus, i) by {
        assert((p.value)(Buf::FfnDown, i) == moe_token::projected(a, m, sum, i));
        assert((h.value)(Buf::Residual, i) == x[i]);
    }
}

/// The sum over GPUs depends on the output slots alone.
proof fn lemma_slots_sum_same<V>(
    a: Arithmetic<V>,
    m: &MoeLayer,
    s: Contents<V>,
    r: Contents<V>,
    t: int,
    num_gpus: int,
    acc: V,
    i: int,
    count: nat,
)
    requires
        forall|j: int| #[trigger]
            (r.value)(Buf::OutputSlots, j) == (s.value)(Buf::OutputSlots, j),
    ensures
        slots_sum(a, m, r, t, num_gpus, acc, i, count) == slots_sum(
            a,
            m,
            s,
            t,
            num_gpus,
            acc,
            i,
            count,
        ),
    decreases count,
{
    if count > 0 {
        lemma_slots_sum_same(a, m, s, r, t, num_gpus, acc, i, (count - 1) as nat);
    }
}

// ---- the order of summation ----

/// Element `i` of the sum of the first `gpus` GPUs' sums over a token's first `count`
/// routed experts.
pub open spec fn sum_by_gpu<V>(
    a: Arithmetic<V>,
    m: &MoeLayer,
    x: Seq<V>,
    ids: Seq<i32>,
    shares: Seq<u32>,
    home: Seq<nat>,
    i: int,
    gpus: nat,
    count: nat,
) -> V
    decreases gpus,
{
    if gpus == 0 {
        a.zero
    } else {
        let g = (gpus - 1) as nat;
        (a.sum)(
            sum_by_gpu(a, m, x, ids, shares, home, i, g, count),
            gpu_sum(a, m, x, ids, shares, home, g, a.zero, i, count),
        )
    }
}

proof fn lemma_regroup<V>(a: Arithmetic<V>, v: V, x: V, y: V)
    requires
        a.exact(),
    ensures
        (a.sum)(v, (a.sum)(x, y)) == (a.sum)((a.sum)(v, x), y),
        (a.sum)((a.sum)(v, x), y) == (a.sum)((a.sum)(v, y), x),
        (a.sum)(a.zero, a.zero) == a.zero,
        (a.scaled)(ONE_F32, v) == v,
{
    reveal(Arithmetic::exact);
    reveal(Arithmetic::order_free);
}

/// One more routed expert adds one summand, on whichever GPU it lives.
proof fn lemma_one_more_expert<V>(
    a: Arithmetic<V>,
    m: &MoeLayer,
    x: Seq<V>,
    ids: Seq<i32>,
    shares: Seq<u32>,
    home: Seq<nat>,
    i: int,
    gpus: nat,
    count: nat,
)
    requires
        a.exact(),
        count > 0,
    ensures
        ({
            let j = count - 1;
            let before = sum_by_gpu(a, m, x, ids, shares, home, i, gpus, j as nat);
            sum_by_gpu(a, m, x, ids, shares, home, i, gpus, count) == if home[ids[j] as int]
                < gpus {
                (a.sum)(
                    before,
                    (a.scaled)(shares[j], moe_token::expert_out(a, m, x, ids[j] as nat, i)),
                )
            } else {
                before
            }
        }),
    decreases gpus,
{
    if gpus > 0 {
        let g = (gpus - 1) as nat;
        let j = count - 1;
        lemma_one_more_expert(a, m, x, ids, shares, home, i, g, count);
        let v = sum_by_gpu(a, m, x, ids, shares, home, i, g, j as nat);
        let own = gpu_sum(a, m, x, ids, shares, home, g, a.zero, i, j as nat);
        let y = (a.scaled)(shares[j], moe_token::expert_out(a, m, x, ids[j] as nat, i));
        if home[ids[j] as int] == g {
            lemma_regroup(a, v, own, y);
        } else if home[ids[j] as int] < g {
            lemma_regroup(a, v, y, own);
        }
    }
}

proof fn lemma_no_experts<V>(
    a: Arithmetic<V>,
    m: &MoeLayer,
    x: Seq<V>,
    ids: Seq<i32>,
    shares: Seq<u32>,
    home: Seq<nat>,
    i: int,
    gpus: nat,
)
    requires
        a.exact(),
    ensures
        sum_by_gpu(a, m, x, ids, shares, home, i, gpus, 0) == a.zero,
    decreases gpus,
{
    lemma_regroup(a, a.zero, a.zero, a.zero);
    if gpus > 0 {
        lemma_no_experts(a, m, x, ids, shares, home, i, (gpus - 1) as nat);
    }
}

/// Summed GPU by GPU or in routing order, a token's experts give the same.
proof fn lemma_same_sum<V>(
    a: Arithmetic<V>,
    m: &MoeLayer,
    x: Seq<V>,
    ids: Seq<i32>,
    shares: Seq<u32>,
    home: Seq<nat>,
    i: int,
    gpus: nat,
    count: nat,
)
    requires
        a.exact(),
        forall|j: int| 0 <= j < count ==> home[#[trigger] ids[j] as int] < gpus,
    ensures
        sum_by_gpu(a, m, x, ids, shares, home, i, gpus, count) == moe_token::experts_sum(
            a,
            m,
            x,
            ids,
            shares,
            a.zero,
            i,
            count,
        ),
    decreases count,
{
    if count == 0 {
        lemma_no_experts(a, m, x, ids, shares, home, i, gpus);
    } else {
        lemma_same_sum(a, m, x, ids, shares, home, i, gpus, (count - 1) as nat);
        lemma_one_more_expert(a, m, x, ids, shares, home, i, gpus, count);
        assert(home[ids[count - 1] as int] < gpus);
    }
}

proof fn lemma_slots_are_sums<V>(
    a: Arithmetic<V>,
    m: &MoeLayer,
    s: Contents<V>,
    x: Seq<V>,
    ids: Seq<i32>,
    shares: Seq<u32>,
    home: Seq<nat>,
    t: int,
    num_gpus: nat,
    i: int,
    count: nat,
)
    requires
        a.exact(),
        count <= num_gpus,
        forall|g: int|
            0 <= g < num_gpus ==> #[trigger] slot_cell(s, m, t, num_gpus as int, g, i) == gpu_sum(
                a,
                m,
                x,
                ids,
                shares,
                home,
                g as nat,
                a.zero,
                i,
                m.num_active as nat,
            ),
    ensures
        slots_sum(a, m, s, t, num_gpus as int, a.zero, i, count) == sum_by_gpu(
            a,
            m,
            x,
            ids,
            shares,
            home,
            i,
            count,
            m.num_active as nat,
        ),
    decreases count,
{
    if count > 0 {
        let g = count - 1;
        lemma_slots_are_sums(a, m, s, x, ids, shares, home, t, num_gpus, i, g as nat);
        let v = slot_cell(s, m, t, num_gpus as int, g, i);
        lemma_regroup(a, v, v, v);
    }
}

// ---- a batch ----

/// The contents once the batch is routed and its activations are staged.
pub open spec fn batch_routed<V>(
    a: Arithmetic<V>,
    m: &MoeLayer,
    s: Contents<V>,
    n: nat,
) -> Contents<V> {
    insts_run(a, s, moe_prefill::route_tokens(m, n) + moe_prefill::stage_insts(m, n))
}

/// The plan was made from what routing left in the buffers.
pub open spec fn plan_follows<V>(
    a: Arithmetic<V>,
    m: &MoeLayer,
    local: &LocalExperts,
    s: Contents<V>,
    n: nat,
    num_gpus: nat,
    plan: &MoePrefillPlan,
) -> bool {
    let r = batch_routed(a, m, s, n);
    let count = n * MAX_ACTIVE_EXPERTS as nat;
    plan.is_plan(
        m,
        local,
        moe_token::read_ids(r, Buf::PerTokenExpertIds, count),
        moe_token::read_shares(r, Buf::PerTokenExpertWeights, count),
        n,
        num_gpus,
    )
}

/// The activation that a worker is handed.
pub open spec fn staged<V>(s: Contents<V>, offset: int, len: nat) -> Seq<V> {
    Seq::new(len, |c: int| (s.value)(Buf::ActivationStaging, offset + c))
}

/// Element `i` of what the `w`-th worker's result for token `t` became.
pub open spec fn answer<V>(
    s: Contents<V>,
    plan: &MoePrefillPlan,
    t: int,
    w: int,
    i: int,
) -> V {
    (s.value)(Buf::OutputSlots, plan.rounds@[t].readbacks@[w].slot_offset + i)
}

/// Between `r` and `after`, every worker was called as the plan says, and its result
/// was read back: the sum over those of the token's routed experts that live on it.
/// Nothing else that the batch reads has changed.
pub open spec fn workers_answered<V>(
    a: Arithmetic<V>,
    m: &MoeLayer,
    plan: &MoePrefillPlan,
    home: Seq<nat>,
    r: Contents<V>,
    after: Contents<V>,
) -> bool {
    &&& inputs_kept(r, after)
    &&& forall|t: int, w: int, i: int|
        0 <= t < plan.rounds@.len() && 0 <= w < plan.rounds@[t].readbacks@.len() && 0 <= i
            < m.hidden_size ==> #[trigger] answer(after, plan, t, w, i) == gpu_sum(
            a,
            m,
            staged(
                r,
                plan.rounds@[t].calls@[w].activation_offset as int,
                m.gate_up_in_dim as nat,
            ),
            plan.rounds@[t].expert_ids@,
            plan.rounds@[t].expert_weights@,
            home,
            plan.rounds@[t].readbacks@[w].gpu as nat,
            a.zero,
            i,
            m.num_active as nat,
        )
}

/// The batch's end: GPU 0's own experts, then the sum over GPUs for each token.
pub open spec fn batch_finished<V>(
    a: Arithmetic<V>,
    answered: Contents<V>,
    n: nat,
    plan: &MoePrefillPlan,
) -> Contents<V> {
    lists_run(a, lists_run(a, answered, plan.local@, n), plan.combine@, n)
}

proof fn lemma_batch_routed<V>(a: Arithmetic<V>, m: &MoeLayer, s: Contents<V>, n: nat)
    requires
        moe_token::direct(m),
        moe_prefill::batch_ok(m, n, 1),
    ensures
        routed(a, m, s, batch_routed(a, m, s, n), n as int),
        forall|t: int|
            0 <= t < n ==> #[trigger] moe_meaning::row_at(
                batch_routed(a, m, s, n),
                Buf::ActivationStaging,
                t,
                m.hidden_size as nat,
            ) == moe_token::normed(a, m, moe_token::token(m, s, t)),
{
    let hs = m.hidden_size as int;
    let first = moe_prefill::route_tokens(m, n);
    let stage = moe_prefill::stage_insts(m, n);
    lemma_route_tokens(a, m, s, n);
    lemma_insts_joined(a, s, first, stage);
    let q = insts_run(a, s, first);
    let r = batch_routed(a, m, s, n);
    let l = ops_of(stage);
    assert(r == moe_meaning::step(a, moe_meaning::step(a, q, l[0]), l[1])) by {
        reveal_with_fuel(moe_meaning::after, 3);
    }
    assert forall|u: int, i: int| 0 <= u < n && 0 <= i < hs implies #[trigger] moe_meaning::cell(
        r,
        Buf::PrefillMoeNormed,
        u,
        hs,
        i,
    ) == moe_token::normed(a, m, moe_token::token(m, s, u))[i] by {
        assert(moe_meaning::cell(q, Buf::PrefillMoeNormed, u, hs, i) == moe_token::normed(
            a,
            m,
            moe_token::token(m, s, u),
        )[i]);
    }
    assert forall|u: int, j: int| 0 <= u < n && 0 <= j < m.num_active implies #[trigger] id_cell(
        r,
        u,
        j,
    ) == moe_token::routed_ids(a, m, moe_token::token(m, s, u))[j] by {
        assert(id_cell(q, u, j) == moe_token::routed_ids(a, m, moe_token::token(m, s, u))[j]);
    }
    assert forall|u: int, j: int| 0 <= u < n && 0 <= j < m.num_active implies #[trigger]
    share_cell(r, u, j) == moe_token::routed_shares(a, m, moe_token::token(m, s, u))[j] by {
        assert(share_cell(q, u, j) == moe_token::routed_shares(
            a,
            m,
            moe_token::token(m, s, u),
        )[j]);
    }
    assert forall|t: int| 0 <= t < n implies #[trigger] moe_meaning::row_at(
        r,
        Buf::ActivationStaging,
        t,
        m.hidden_size as nat,
    ) == moe_token::normed(a, m, moe_token::token(m, s, t)) by {
        arith::lemma_scaled_index(t, n as int, hs);
        let x = moe_token::normed(a, m, moe_token::token(m, s, t));
        let row = moe_meaning::row_at(r, Buf::ActivationStaging, t, hs as nat);
        assert forall|c: int| 0 <= c < hs implies #[trigger] row[c] == x[c] by {
            assert(moe_meaning::cell(q, Buf::PrefillMoeNormed, t, hs, c) == x[c]);
        }
        assert(row =~= x);
    }
}

/// GPU `g`'s sum for token `t` of the batch that started in `s`.
pub open spec fn share_of<V>(
    a: Arithmetic<V>,
    m: &MoeLayer,
    s: Contents<V>,
    home: Seq<nat>,
    t: int,
    g: int,
    i: int,
) -> V {
    let x = moe_token::token(m, s, t);
    gpu_sum(
        a,
        m,
        moe_token::normed(a, m, x),
        moe_token::routed_ids(a, m, x),
        moe_token::routed_shares(a, m, x),
        home,
        g as nat,
        a.zero,
        i,
        m.num_active as nat,
    )
}

proof fn lemma_locals<V>(
    a: Arithmetic<V>,
    m: &MoeLayer,
    local: &LocalExperts,
    home: Seq<nat>,
    s: Contents<V>,
    answered: Contents<V>,
    n: nat,
    num_gpus: nat,
    plan: &MoePrefillPlan,
    j: nat,
)
    requires
        moe_token::direct(m),
        moe_prefill::batch_ok(m, n, num_gpus),
        spread(a, m, local, home, num_gpus),
        a.routes(),
        plan_follows(a, m, local, s, n, num_gpus, plan),
        inputs_kept(batch_routed(a, m, s, n), answered),
        zeros(a, m, s),
        j <= n,
    ensures
        ({
            let r = lists_run(a, answered, plan.local@, j);
            &&& inputs_kept(answered, r)
            &&& forall|u: int, g: int, i: int|
                0 <= u && 0 <= g < num_gpus && 0 <= i < m.hidden_size ==> #[trigger] slot_cell(
                    r,
                    m,
                    u,
                    num_gpus as int,
                    g,
                    i,
                ) == if u < j && g == 0 {
                    share_of(a, m, s, home, u, 0, i)
                } else {
                    slot_cell(answered, m, u, num_gpus as int, g, i)
                }
        }),
    decreases j,
{
    if j > 0 {
        let hs = m.hidden_size as int;
        let t = (j - 1) as nat;
        lemma_locals(a, m, local, home, s, answered, n, num_gpus, plan, t);
        arith::lemma_mul_mono(1, num_gpus as int, n as int);
        lemma_batch_routed(a, m, s, n);
        let r = batch_routed(a, m, s, n);
        let count = n * MAX_ACTIVE_EXPERTS as nat;
        let ids = moe_token::read_ids(r, Buf::PerTokenExpertIds, count);
        let shares = moe_token::read_shares(r, Buf::PerTokenExpertWeights, count);
        let x = moe_token::token(m, s, t as int);
        let own_ids = moe_token::routed_ids(a, m, x);
        let own_shares = moe_token::routed_shares(a, m, x);
        let p = lists_run(a, answered, plan.local@, t);
        let nx = moe_token::normed(a, m, x);
        assert(moe_meaning::row_at(p, Buf::PrefillMoeNormed, t as int, hs as nat) =~= nx) by {
            assert forall|c: int| 0 <= c < hs implies #[trigger] moe_meaning::row_at(
                p,
                Buf::PrefillMoeNormed,
                t as int,
                hs as nat,
            )[c] == nx[c] by {
                assert(moe_meaning::cell(r, Buf::PrefillMoeNormed, t as int, hs, c) == nx[c]);
            }
        }
        assert forall|c: int| 0 <= c < m.num_active implies (#[trigger] own_ids[c]) == ids[t
            * MAX_ACTIVE_EXPERTS + c] by {
            assert(id_cell(r, t as int, c) == own_ids[c]);
        }
        assert forall|c: int| 0 <= c < m.num_active implies (#[trigger] own_shares[c])
            == shares[t * MAX_ACTIVE_EXPERTS + c] by {
            assert(share_cell(r, t as int, c) == own_shares[c]);
        }
        lemma_local_token(
            a,
            m,
            local,
            home,
            num_gpus,
            p,
            nx,
            ids,
            shares,
            own_ids,
            own_shares,
            t,
            n,
        );
        assert(plan.local@[t as int]@ == moe_prefill::local_token(
            m,
            local,
            ids,
            shares,
            t,
            num_gpus,
        ));
        let q = lists_run(a, answered, plan.local@, j);
        assert forall|u: int, g: int, i: int|
            0 <= u && 0 <= g < num_gpus && 0 <= i < m.hidden_size implies #[trigger] slot_cell(
            q,
            m,
            u,
            num_gpus as int,
            g,
            i,
        ) == if u < j && g == 0 {
            share_of(a, m, s, home, u, 0, i)
        } else {
            slot_cell(answered, m, u, num_gpus as int, g, i)
        } by {
            let before = slot_cell(p, m, u, num_gpus as int, g, i);
        }
    }
}

proof fn lemma_combines<V>(
    a: Arithmetic<V>,
    m: &MoeLayer,
    s: Contents<V>,
    n: nat,
    num_gpus: nat,
    lists: Seq<Vec<Inst>>,
    j: nat,
)
    requires
        moe_token::direct(m),
        moe_prefill::batch_ok(m, n, num_gpus),
        zeros(a, m, s),
        j <= n,
        lists.len() == n,
        forall|t: int|
            0 <= t < n ==> (#[trigger] lists[t])@ == moe_prefill::combine_token(
                m,
                t as nat,
                num_gpus,
            ),
    ensures
        ({
            let hs = m.hidden_size as int;
            let r = lists_run(a, s, lists, j);
            &&& results_kept(s, r)
            &&& forall|u: int, i: int|
                0 <= u < j && 0 <= i < hs ==> #[trigger] moe_meaning::cell(
                    r,
                    Buf::PrefillHidden,
                    u,
                    hs,
                    i,
                ) == combined(a, m, s, u, num_gpus, i)
            &&& forall|p: int|
                j * hs <= p ==> #[trigger] (r.value)(Buf::PrefillHidden, p) == (s.value)(
                    Buf::PrefillHidden,
                    p,
                )
        }),
    decreases j,
{
    if j > 0 {
        let hs = m.hidden_size as int;
        let t = (j - 1) as nat;
        lemma_combines(a, m, s, n, num_gpus, lists, t);
        let p = lists_run(a, s, lists, t);
        let q = lists_run(a, s, lists, j);
        assert(lists[t as int]@ == moe_prefill::combine_token(m, t, num_gpus));
        lemma_combine_token(a, m, p, t, n, num_gpus);
        assert(t * hs + hs == j * hs) by (nonlinear_arith)
            requires
                t + 1 == j,
        ;
        assert forall|u: int, i: int| 0 <= u < j && 0 <= i < hs implies #[trigger]
        moe_meaning::cell(q, Buf::PrefillHidden, u, hs, i) == combined(
            a,
            m,
            s,
            u,
            num_gpus,
            i,
        ) by {
            moe_meaning::lemma_rows_apart(u, t as int, hs, i);
            if u < t {
                assert(moe_meaning::cell(p, Buf::PrefillHidden, u, hs, i) == combined(
                    a,
                    m,
                    s,
                    u,
                    num_gpus,
                    i,
                ));
            } else {
                assert(moe_token::token(m, p, u) =~= moe_token::token(m, s, u));
                let before = gpus_sum(a, m, s, u, num_gpus);
                let now = gpus_sum(a, m, p, u, num_gpus);
                assert forall|c: int| 0 <= c < hs implies #[trigger] now[c] == before[c] by {
                    lemma_slots_sum_same(a, m, s, p, u, num_gpus as int, a.zero, c, num_gpus);
                }
                assert(now =~= before);
            }
        }
    }
}

/// The sum over the GPUs' results is the sum over the token's experts.
proof fn lemma_token_sum<V>(
    a: Arithmetic<V>,
    m: &MoeLayer,
    local: &LocalExperts,
    home: Seq<nat>,
    s: Contents<V>,
    answered: Contents<V>,
    n: nat,
    num_gpus: nat,
    plan: &MoePrefillPlan,
    u: int,
    i: int,
)
    requires
        moe_token::direct(m),
        moe_prefill::batch_ok(m, n, num_gpus),
        a.exact(),
        a.routes(),
        spread(a, m, local, home, num_gpus),
        zeros(a, m, s),
        plan_follows(a, m, local, s, n, num_gpus, plan),
        workers_answered(a, m, plan, home, batch_routed(a, m, s, n), answered),
        0 <= u < n,
        0 <= i < m.hidden_size,
    ensures
        slots_sum(
            a,
            m,
            lists_run(a, answered, plan.local@, n),
            u,
            num_gpus as int,
            a.zero,
            i,
            num_gpus,
        ) == moe_token::routed_sum(a, m, moe_token::token(m, s, u))[i],
{
    let hs = m.hidden_size as int;
    let k = m.num_active as nat;
    arith::lemma_mul_mono(1, num_gpus as int, n as int);
    lemma_batch_routed(a, m, s, n);
    let r = batch_routed(a, m, s, n);
    lemma_locals(a, m, local, home, s, answered, n, num_gpus, plan, n);
    let l = lists_run(a, answered, plan.local@, n);
    let count = n * MAX_ACTIVE_EXPERTS as nat;
    let ids = moe_token::read_ids(r, Buf::PerTokenExpertIds, count);
    let shares = moe_token::read_shares(r, Buf::PerTokenExpertWeights, count);
    let x = moe_token::token(m, s, u);
    let nx = moe_token::normed(a, m, x);
    let own_ids = moe_token::routed_ids(a, m, x);
    let own_shares = moe_token::routed_shares(a, m, x);
    assert forall|g: int| 0 <= g < num_gpus implies #[trigger] slot_cell(
        l,
        m,
        u,
        num_gpus as int,
        g,
        i,
    ) == gpu_sum(a, m, nx, own_ids, own_shares, home, g as nat, a.zero, i, k) by {
        if g > 0 {
            let round = plan.rounds@[u];
            assert(round.is_round(m, ids, shares, u as nat, num_gpus));
            let w = g - 1;
            assert(answer(answered, plan, u, w, i) == gpu_sum(
                a,
                m,
                staged(r, round.calls@[w].activation_offset as int, hs as nat),
                round.expert_ids@,
                round.expert_weights@,
                home,
                round.readbacks@[w].gpu as nat,
                a.zero,
                i,
                k,
            ));
            arith::lemma_scaled_index(u, n as int, hs);
            arith::lemma_scaled_index(u, n as int, num_gpus as int);
            arith::lemma_scaled_index(u * num_gpus + g, (n * num_gpus) as int, hs);
            assert(moe_meaning::row_at(r, Buf::ActivationStaging, u, hs as nat) == nx);
            assert(staged(r, u * hs, hs as nat) =~= nx);
            assert(round.expert_ids@ =~= own_ids) by {
                assert forall|j: int| 0 <= j < k implies #[trigger] own_ids[j]
                    == round.expert_ids@[j] by {
                    assert(id_cell(r, u, j) == own_ids[j]);
                }
            }
            assert(round.expert_weights@ =~= own_shares) by {
                assert forall|j: int| 0 <= j < k implies #[trigger] own_shares[j]
                    == round.expert_weights@[j] by {
                    assert(share_cell(r, u, j) == own_shares[j]);
                }
            }
            assert(slot_cell(answered, m, u, num_gpus as int, g, i) == answer(
                answered,
                plan,
                u,
                w,
                i,
            ));
        }
    }
    lemma_slots_are_sums(
        a,
        m,
        l,
        nx,
        own_ids,
        own_shares,
        home,
        u,
        num_gpus,
        i,
        num_gpus,
    );
    assert forall|j: int| 0 <= j < k implies home[#[trigger] own_ids[j] as int]
        < num_gpus by {
        assert(0 <= own_ids[j] < m.num_experts);
    }
    lemma_same_sum(a, m, nx, own_ids, own_shares, home, i, num_gpus, k);
}

/// Spread over GPUs, a batch comes out as it does token by token, whatever the
/// arithmetic, as long as sums are exact, the router names experts that exist, each
/// expert lives on one GPU, and every worker answers with the sum over its experts.
/// Rows behind the batch stay as they were.
///
/// Machine addition rounds, so on devices the two agree up to the order of summation.
pub proof fn law_spreading_keeps_results<V>(
    a: Arithmetic<V>,
    m: &MoeLayer,
    local: &LocalExperts,
    home: Seq<nat>,
    s: Contents<V>,
    answered: Contents<V>,
    n: nat,
    num_gpus: nat,
    plan: &MoePrefillPlan,
)
    requires
        moe_token::direct(m),
        moe_prefill::batch_ok(m, n, num_gpus),
        a.exact(),
        a.routes(),
        spread(a, m, local, home, num_gpus),
        zeros(a, m, s),
        plan_follows(a, m, local, s, n, num_gpus, plan),
        workers_answered(a, m, plan, home, batch_routed(a, m, s, n), answered),
    ensures
        forall|j: int|
            0 <= j ==> #[trigger] (batch_finished(a, answered, n, plan).value)(
                Buf::PrefillHidden,
                j,
            ) == (moe_token::one_by_one(a, m, s, n).value)(Buf::PrefillHidden, j),
        forall|j: int|
            n * m.hidden_size <= j ==> #[trigger] (batch_finished(a, answered, n, plan).value)(
                Buf::PrefillHidden,
                j,
            ) == (s.value)(Buf::PrefillHidden, j),
{
    let hs = m.hidden_size as int;
    arith::lemma_mul_mono(1, num_gpus as int, n as int);
    moe_token::lemma_one_by_one(a, m, s, n);
    lemma_batch_routed(a, m, s, n);
    lemma_locals(a, m, local, home, s, answered, n, num_gpus, plan, n);
    let l = lists_run(a, answered, plan.local@, n);
    lemma_combines(a, m, l, n, num_gpus, plan.combine@, n);
    let c = batch_finished(a, answered, n, plan);
    assert forall|u: int, i: int| 0 <= u < n && 0 <= i < hs implies #[trigger] moe_meaning::cell(
        c,
        Buf::PrefillHidden,
        u,
        hs,
        i,
    ) == moe_token::layer_out(a, m, moe_token::token(m, s, u), i) by {
        let x = moe_token::token(m, s, u);
        assert(moe_token::token(m, l, u) =~= x);
        let total = gpus_sum(a, m, l, u, num_gpus);
        let sum = moe_token::routed_sum(a, m, x);
        assert forall|q: int| 0 <= q < hs implies #[trigger] total[q] == sum[q] by {
            lemma_token_sum(a, m, local, home, s, answered, n, num_gpus, plan, u, q);
        }
        assert(total =~= sum);
        assert(moe_meaning::cell(c, Buf::PrefillHidden, u, hs, i) == combined(
            a,
            m,
            l,
            u,
            num_gpus,
            i,
        ));
    }
    moe_token::lemma_passed_agree(a, m, s, c, moe_token::one_by_one(a, m, s, n), n);
}

// ---- projected activations ----

proof fn lemma_latents<V>(a: Arithmetic<V>, m: &MoeLayer, s: Contents<V>, n: nat)
    requires
        m.has_fc1 || m.gate_up_in_dim == m.hidden_size,
        n * m.hidden_size <= usize::MAX,
        n * m.gate_up_in_dim <= usize::MAX,
    ensures
        ({
            let t = insts_run(a, s, moe_prefill::route_tokens(m, n));
            let width = m.gate_up_in_dim as int;
            &&& forall|u: int, i: int|
                0 <= u < n && 0 <= i < width ==> #[trigger] moe_meaning::cell(
                    t,
                    Buf::PrefillMoeNormed,
                    u,
                    width,
                    i,
                ) == moe_token::latent(
                    a,
                    m,
                    moe_token::normed(a, m, moe_token::token(m, s, u)),
                )[i]
            &&& forall|b: Buf, i: int|
                b == Buf::PrefillHidden || b == Buf::PrefillMoeNormed && n * width <= i
                    ==> #[trigger] (t.value)(b, i) == (s.value)(b, i)
        }),
    decreases n,
{
    if n > 0 {
        let t = (n - 1) as nat;
        let hs = m.hidden_size as int;
        let width = m.gate_up_in_dim as int;
        arith::lemma_scaled_index(t as int, n as int, hs);
        arith::lemma_scaled_index(t as int, n as int, width);
        assert(t * width + width == n * width) by (nonlinear_arith)
            requires
                t + 1 == n,
        ;
        lemma_latents(a, m, s, t);
        let first = moe_prefill::route_tokens(m, t);
        let one = moe_prefill::route_token(m, t);
        lemma_insts_joined(a, s, first, one);
        let s0 = insts_run(a, s, first);
        let l = ops_of(one);
        reveal_with_fuel(moe_meaning::after, 5);
        let s1 = moe_meaning::step(a, s0, l[0]);
        let s2 = moe_meaning::step(a, s1, l[1]);
        let s3 = moe_meaning::step(a, s2, l[2]);
        let end = insts_run(a, s0, one);
        assert(end == if m.has_fc1 {
            moe_meaning::step(a, s3, l[3])
        } else {
            s3
        });
        let x = moe_token::token(m, s, t as int);
        let input = Loc { buf: Buf::PrefillHidden, offset: (t * m.hidden_size as nat) as usize };
        assert(moe_meaning::read(s0, input, hs as nat) =~= x);
        if m.has_fc1 {
            assert(moe_meaning::read(s1, ops::start(Buf::Normed), hs as nat)
                =~= moe_token::normed(a, m, x));
        }
        assert forall|u: int, i: int| 0 <= u < n && 0 <= i < width implies #[trigger]
        moe_meaning::cell(end, Buf::PrefillMoeNormed, u, width, i) == moe_token::latent(
            a,
            m,
            moe_token::normed(a, m, moe_token::token(m, s, u)),
        )[i] by {
            moe_meaning::lemma_rows_apart(u, t as int, width, i);
            if u < t {
                assert(moe_meaning::cell(s0, Buf::PrefillMoeNormed, u, width, i)
                    == moe_token::latent(
                    a,
                    m,
                    moe_token::normed(a, m, moe_token::token(m, s, u)),
                )[i]);
            }
        }
    }
}

/// Routing a batch hands the workers, token by token, what the experts read of the token:
/// its normalised hidden state, projected into the experts' space where they have one of
/// their own. Every worker's call for token `t` starts at that token's row. The hidden
/// states stay as they were.
pub proof fn law_workers_read_latents<V>(a: Arithmetic<V>, m: &MoeLayer, s: Contents<V>, n: nat)
    requires
        m.has_fc1 || m.gate_up_in_dim == m.hidden_size,
        n * m.hidden_size <= usize::MAX,
        n * m.gate_up_in_dim <= usize::MAX,
    ensures
        ({
            let r = batch_routed(a, m, s, n);
            let width = m.gate_up_in_dim as nat;
            &&& forall|t: int, num_gpus: nat, w: int|
                0 <= t < n && 0 <= w < num_gpus - 1 ==> staged(
                    r,
                    (#[trigger] moe_prefill::worker_calls(
                        m,
                        t as nat,
                        num_gpus,
                    )[w]).activation_offset as int,
                    width,
                ) == moe_token::latent(a, m, moe_token::normed(a, m, moe_token::token(m, s, t)))
            &&& forall|t: int|
                0 <= t < n ==> #[trigger] moe_meaning::row_at(
                    r,
                    Buf::PrefillMoeNormed,
                    t,
                    width,
                ) == moe_token::latent(a, m, moe_token::normed(a, m, moe_token::token(m, s, t)))
            &&& forall|i: int| #[trigger]
                (r.value)(Buf::PrefillHidden, i) == (s.value)(Buf::PrefillHidden, i)
        }),
{
    let width = m.gate_up_in_dim as nat;
    let first = moe_prefill::route_tokens(m, n);
    let stage = moe_prefill::stage_insts(m, n);
    lemma_latents(a, m, s, n);
    lemma_insts_joined(a, s, first, stage);
    let q = insts_run(a, s, first);
    let r = batch_routed(a, m, s, n);
    let l = ops_of(stage);
    assert(r == moe_meaning::step(a, moe_meaning::step(a, q, l[0]), l[1])) by {
        reveal_with_fuel(moe_meaning::after, 3);
    }
    assert forall|t: int| 0 <= t < n implies {
        let x = moe_token::latent(a, m, moe_token::normed(a, m, moe_token::token(m, s, t)));
        &&& #[trigger] moe_meaning::row_at(r, Buf::PrefillMoeNormed, t, width) == x
        &&& moe_meaning::row_at(r, Buf::ActivationStaging, t, width) == x
    } by {
        arith::lemma_scaled_index(t, n as int, width as int);
        let x = moe_token::latent(a, m, moe_token::normed(a, m, moe_token::token(m, s, t)));
        assert forall|c: int| 0 <= c < width implies #[trigger] moe_meaning::cell(
            q,
            Buf::PrefillMoeNormed,
            t,
            width as int,
            c,
        ) == x[c] by {}
        assert(x.len() == width);
        let own = moe_meaning::row_at(r, Buf::PrefillMoeNormed, t, width);
        let copy = moe_meaning::row_at(r, Buf::ActivationStaging, t, width);
        assert forall|c: int| 0 <= c < width implies #[trigger] own[c] == x[c] && copy[c] == x[c] by {
            assert(moe_meaning::cell(q, Buf::PrefillMoeNormed, t, width as int, c) == x[c]);
        }
        assert(own =~= x);
        assert(copy =~= x);
    }
    assert forall|t: int, num_gpus: nat, w: int| 0 <= t < n && 0 <= w < num_gpus - 1 implies staged(
        r,
        (#[trigger] moe_prefill::worker_calls(m, t as nat, num_gpus)[w]).activation_offset as int,
        width,
    ) == moe_token::latent(a, m, moe_token::normed(a, m, moe_token::token(m, s, t))) by {
        arith::lemma_scaled_index(t, n as int, width as int);
        let own = moe_meaning::row_at(r, Buf::PrefillMoeNormed, t, width);
        let copy = moe_meaning::row_at(r, Buf::ActivationStaging, t, width);
        let call = moe_prefill::worker_calls(m, t as nat, num_gpus)[w];
        assert(staged(r, call.activation_offset as int, width) =~= copy);
    }
}

/// Every worker is called once for each token and read back once, into the token's slot of
/// that worker. All calls for a layer ask for the same pass: gated experts are activated
/// through their gate, the others squared.
pub proof fn law_calls_match_layer(m: &MoeLayer, t: nat, num_gpus: nat, w: int)
    requires
        0 <= w < num_gpus - 1,
        num_gpus <= usize::MAX,
        m.hidden_size * 4 <= usize::MAX,
    ensures
        ({
            let calls = moe_prefill::worker_calls(m, t, num_gpus);
            let back = moe_prefill::worker_readbacks(m, t, num_gpus);
            let call = calls[w];
            &&& calls.len() == num_gpus - 1
            &&& back.len() == calls.len()
            &&& call.gpu == w + 1
            &&& back[w].gpu == call.gpu
            &&& back[w].bytes == 4 * m.hidden_size
            &&& call.layer == m.layer
            &&& call.k == m.num_active
            &&& call.hidden_size == m.hidden_size
            &&& call.gate_up_in_dim == m.gate_up_in_dim
            &&& call.expert_intermediate_size == m.expert_intermediate_size
            &&& call.has_gate <==> m.has_gate_proj
            &&& call.relu_sq <==> !call.has_gate
        }),
{
}

} // verus!
