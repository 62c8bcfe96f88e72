//! A prefill batch run expert by expert computes what its tokens compute one by one.

use vstd::prelude::*;
use crate::arith;
use crate::model::moe_forward;
use crate::model::moe_forward::MoeLayer;
use crate::model::moe_meaning;
use crate::model::moe_meaning::{Arithmetic, Contents};
use crate::model::moe_prefill_single;
use crate::model::moe_prefill_single::{BatchStep, ExpertBatch, SingleGpuPlan};
use crate::model::moe_token;
use crate::ops;
use crate::ops::{Buf, Op};

verus! {

// ---- routing of a batch ----

/// The first `n` tokens are routed: residual, activation and routing of each are in
/// its row.
pub open spec fn routed<V>(
    a: Arithmetic<V>,
    m: &MoeLayer,
    s: Contents<V>,
    t: Contents<V>,
    n: int,
) -> bool {
    let hs = m.hidden_size as int;
    let k = m.num_active as int;
    &&& forall|u: int, i: int|
        0 <= u < n && 0 <= i < hs ==> #[trigger] moe_meaning::cell(
            t,
            Buf::PrefillMoeResidual,
            u,
            hs,
            i,
        ) == moe_token::token(m, s, u)[i]
    &&& forall|u: int, i: int|
        0 <= u < n && 0 <= i < hs ==> #[trigger] moe_meaning::cell(
            t,
            Buf::PrefillMoeNormed,
            u,
            hs,
            i,
        ) == moe_token::normed(a, m, moe_token::token(m, s, u))[i]
    &&& forall|u: int, j: int|
        0 <= u < n && 0 <= j < k ==> #[trigger] id_cell(t, u, k, j) == moe_token::routed_ids(
            a,
            m,
            moe_token::token(m, s, u),
        )[j]
    &&& forall|u: int, j: int|
        0 <= u < n && 0 <= j < k ==> #[trigger] share_cell(t, u, k, j) == moe_token::routed_shares(
            a,
            m,
            moe_token::token(m, s, u),
        )[j]
    &&& forall|j: int| #[trigger]
        (t.value)(Buf::PrefillHidden, j) == (s.value)(Buf::PrefillHidden, j)
}

/// The expert at place `j` of token `t`'s routing.
pub open spec fn id_cell<V>(s: Contents<V>, t: int, k: int, j: int) -> i32 {
    (s.ids)(Buf::PrefillMoeIds, t * k + j)
}

/// Its share.
pub open spec fn share_cell<V>(s: Contents<V>, t: int, k: int, j: int) -> u32 {
    (s.shares)(Buf::PrefillMoeWeights, t * k + j)
}

proof fn lemma_route_tokens<V>(a: Arithmetic<V>, m: &MoeLayer, s: Contents<V>, n: nat)
    requires
        moe_token::direct(m),
        n * m.hidden_size <= usize::MAX,
        n * m.num_active <= usize::MAX,
    ensures
        routed(
            a,
            m,
            s,
            moe_meaning::run(a, s, moe_prefill_single::route_tokens(m, n)),
            n as int,
        ),
    decreases n,
{
    if n > 0 {
        let t = (n - 1) as nat;
        let hs = m.hidden_size as int;
        let k = m.num_active as int;
        arith::lemma_scaled_index(t as int, n as int, hs);
        arith::lemma_scaled_index(t as int, n as int, k);
        lemma_route_tokens(a, m, s, t);
        let first = moe_prefill_single::route_tokens(m, t);
        let l = moe_prefill_single::route_token(m, t);
        moe_meaning::lemma_run_joined(a, s, first, l);
        let s0 = moe_meaning::run(a, s, first);
        reveal_with_fuel(moe_meaning::after, 7);
        let s1 = moe_meaning::step(a, s0, l[0]);
        let s2 = moe_meaning::step(a, s1, l[1]);
        let s3 = moe_meaning::step(a, s2, l[2]);
        let s4 = moe_meaning::step(a, s3, l[3]);
        let s5 = moe_meaning::step(a, s4, l[4]);
        let s6 = moe_meaning::step(a, s5, l[5]);
        assert(moe_meaning::run(a, s0, l) == s6);
        let x = moe_token::token(m, s, t as int);
        assert(moe_meaning::read(s2, ops::start(Buf::Hidden), hs as nat) =~= x);
        assert(moe_meaning::read(s4, ops::start(Buf::Normed), hs as nat) =~= moe_token::normed(a, m, x));
        assert(moe_meaning::read(s5, ops::start(Buf::MoeScores), m.num_experts as nat)
            =~= moe_token::scores(a, m, x));
        assert forall|u: int, i: int| 0 <= u < n && 0 <= i < hs implies #[trigger]
        moe_meaning::cell(s6, Buf::PrefillMoeResidual, u, hs, i) == moe_token::token(m, s, u)[i] by {
            moe_meaning::lemma_rows_apart(u, t as int, hs, i);
            if u < t {
                assert(moe_meaning::cell(s0, Buf::PrefillMoeResidual, u, hs, i) == moe_token::token(m, s, u)[i]);
            }
        }
        assert forall|u: int, i: int| 0 <= u < n && 0 <= i < hs implies #[trigger]
        moe_meaning::cell(s6, Buf::PrefillMoeNormed, u, hs, i) == moe_token::normed(
            a,
            m,
            moe_token::token(m, s, u),
        )[i] by {
            moe_meaning::lemma_rows_apart(u, t as int, hs, i);
            if u < t {
                assert(moe_meaning::cell(s0, Buf::PrefillMoeNormed, u, hs, i) == moe_token::normed(
                    a,
                    m,
                    moe_token::token(m, s, u),
                )[i]);
            }
        }
        assert forall|u: int, j: int| 0 <= u < n && 0 <= j < k implies #[trigger] id_cell(
            s6,
            u,
            k,
            j,
        ) == moe_token::routed_ids(a, m, moe_token::token(m, s, u))[j] by {
            moe_meaning::lemma_rows_apart(u, t as int, k, j);
            if u < t {
                assert(id_cell(s0, u, k, j) == moe_token::routed_ids(a, m, moe_token::token(m, s, u))[j]);
            }
        }
        assert forall|u: int, j: int| 0 <= u < n && 0 <= j < k implies #[trigger] share_cell(
            s6,
            u,
            k,
            j,
        ) == moe_token::routed_shares(a, m, moe_token::token(m, s, u))[j] by {
            moe_meaning::lemma_rows_apart(u, t as int, k, j);
            if u < t {
                assert(share_cell(s0, u, k, j) == moe_token::routed_shares(a, m, moe_token::token(m, s, u))[j]);
            }
        }
    }
}

// ---- one expert over its tokens ----

/// What routing entry `f` adds to element `i` of a token whose normalised activation
/// is `x`.
pub open spec fn entry<V>(
    a: Arithmetic<V>,
    m: &MoeLayer,
    x: Seq<V>,
    ids: Seq<i32>,
    shares: Seq<u32>,
    i: int,
    f: int,
) -> V {
    (a.scaled)(shares[f], moe_token::expert_out(a, m, x, ids[f] as nat, i))
}

/// Element `i` of token `t` after those of the first `count` routing entries that
/// send it to `expert` were added to `acc`.
pub open spec fn expert_sum<V>(
    a: Arithmetic<V>,
    m: &MoeLayer,
    x: Seq<V>,
    ids: Seq<i32>,
    shares: Seq<u32>,
    acc: V,
    i: int,
    t: int,
    expert: nat,
    count: nat,
) -> V
    decreases count,
{
    if count == 0 {
        acc
    } else {
        let before = expert_sum(
            a,
            m,
            x,
            ids,
            shares,
            acc,
            i,
            t,
            expert,
            (count - 1) as nat,
        );
        if ids[count - 1] == expert && (count - 1) / m.num_active as int == t {
            (a.sum)(before, entry(a, m, x, ids, shares, i, count - 1))
        } else {
            before
        }
    }
}

proof fn lemma_scattered_prefix<V>(
    a: Arithmetic<V>,
    acc: V,
    input: spec_fn(int) -> V,
    dim: int,
    tokens: Seq<i32>,
    shares: Seq<u32>,
    token: i32,
    share: u32,
    x: int,
    rows: nat,
)
    requires
        rows <= tokens.len(),
        rows <= shares.len(),
    ensures
        moe_meaning::scattered(a, acc, input, dim, tokens.push(token), shares.push(share), x, rows)
            == moe_meaning::scattered(a, acc, input, dim, tokens, shares, x, rows),
    decreases rows,
{
    if rows > 0 {
        lemma_scattered_prefix(
            a,
            acc,
            input,
            dim,
            tokens,
            shares,
            token,
            share,
            x,
            (rows - 1) as nat,
        );
    }
}

proof fn lemma_scattered<V>(
    a: Arithmetic<V>,
    m: &MoeLayer,
    x: Seq<V>,
    ids: Seq<i32>,
    shares: Seq<u32>,
    acc: V,
    input: spec_fn(int) -> V,
    i: int,
    t: int,
    n: int,
    expert: nat,
    count: nat,
)
    requires
        0 <= i < m.hidden_size,
        0 <= t,
        0 <= n <= i32::MAX,
        count <= n * m.num_active,
        forall|r: int|
            0 <= r < moe_prefill_single::tokens_of(
                ids,
                m.num_active as nat,
                expert,
                count,
            ).len() && #[trigger] moe_prefill_single::tokens_of(
                ids,
                m.num_active as nat,
                expert,
                count,
            )[r] == t ==> input(r * m.hidden_size + i) == moe_token::expert_out(a, m, x, expert, i),
    ensures
        ({
            let tokens = moe_prefill_single::tokens_of(ids, m.num_active as nat, expert, count);
            moe_meaning::scattered(
                a,
                acc,
                input,
                m.hidden_size as int,
                tokens,
                moe_prefill_single::weights_of(ids, shares, expert, count),
                t * m.hidden_size + i,
                tokens.len(),
            ) == expert_sum(a, m, x, ids, shares, acc, i, t, expert, count)
        }),
    decreases count,
{
    let k = m.num_active as nat;
    let hs = m.hidden_size as int;
    if count > 0 {
        let p = (count - 1) as nat;
        let tokens = moe_prefill_single::tokens_of(ids, k, expert, count);
        let before = moe_prefill_single::tokens_of(ids, k, expert, p);
        let shares_before = moe_prefill_single::weights_of(ids, shares, expert, p);
        moe_prefill_single::lemma_group_len(ids, shares, k, expert, p);
        assert forall|r: int|
            0 <= r < before.len() && #[trigger] before[r] == t implies input(
            r * m.hidden_size + i,
        ) == moe_token::expert_out(a, m, x, expert, i) by {
            assert(tokens[r] == before[r]);
        }
        lemma_scattered(a, m, x, ids, shares, acc, input, i, t, n, expert, p);
        if ids[count - 1] == expert {
            lemma_scattered_prefix(
                a,
                acc,
                input,
                hs,
                before,
                shares_before,
                (p / k) as i32,
                shares[count - 1],
                t * hs + i,
                before.len(),
            );
            moe_meaning::lemma_cell_place(t, hs, i);
            assert(k > 0) by (nonlinear_arith)
                requires
                    0 < count <= n * k,
                    n >= 0,
                    k >= 0,
            ;
            assert(n * k == k * n) by (nonlinear_arith);
            vstd::arithmetic::div_mod::lemma_multiply_divide_lt(p as int, k as int, n);
            vstd::arithmetic::div_mod::lemma_div_pos_is_pos(p as int, k as int);
            assert(tokens[before.len() as int] == (p / k) as i32);
        }
    }
}

/// The list of `expert`'s tokens is uploaded.
pub open spec fn uploaded<V>(s: Contents<V>, tokens: Seq<i32>, shares: Seq<u32>) -> Contents<V> {
    Contents { listed: tokens, listed_shares: shares, ..s }
}

/// Rows that experts read, and those that wait for the end, are as before.
pub open spec fn rows_kept<V>(s: Contents<V>, t: Contents<V>) -> bool {
    forall|b: Buf, i: int|
        b == Buf::PrefillHidden || b == Buf::PrefillMoeNormed || b == Buf::PrefillMoeResidual
            ==> #[trigger] (t.value)(b, i) == (s.value)(b, i)
}

/// Row `r` of an expert's output is that of the `r`-th listed token.
proof fn lemma_batch_row<V>(
    a: Arithmetic<V>,
    m: &MoeLayer,
    s: Contents<V>,
    expert: nat,
    rows: nat,
    r: int,
    i: int,
)
    requires
        moe_token::direct(m),
        rows <= usize::MAX,
        rows * m.expert_intermediate_size <= usize::MAX,
        0 <= r < rows,
        0 <= i < m.hidden_size,
    ensures
        ({
            let l = moe_prefill_single::batch_ops(m, expert, rows);
            let x = moe_meaning::row_at(
                s,
                Buf::PrefillMoeNormed,
                s.listed[r] as int,
                m.hidden_size as nat,
            );
            let d = moe_meaning::after(a, s, l, (l.len() - 1) as nat);
            (d.value)(Buf::PrefillMoeDownOut, r * m.hidden_size + i) == moe_token::expert_out(
                a,
                m,
                x,
                expert,
                i,
            )
        }),
{
    let l = moe_prefill_single::batch_ops(m, expert, rows);
    let hs = m.hidden_size as int;
    let eis = m.expert_intermediate_size as int;
    let x = moe_meaning::row_at(s, Buf::PrefillMoeNormed, s.listed[r] as int, hs as nat);
    let act = moe_token::inner(a, moe_token::gate_of(m, expert), moe_token::up_of(m, expert), x, eis as nat);
    arith::lemma_scaled_index(r, rows as int, hs);
    arith::lemma_scaled_index(r, rows as int, eis);
    moe_meaning::lemma_cell_place(r, hs, i);
    reveal_with_fuel(moe_meaning::after, 6);
    let s1 = moe_meaning::step(a, s, l[0]);
    let s2 = moe_meaning::step(a, s1, l[1]);
    let s3 = moe_meaning::step(a, s2, l[2]);
    let s4 = moe_meaning::step(a, s3, l[3]);
    let gathered = Seq::new(
        hs as nat,
        |c: int| (s1.value)(Buf::PrefillMoeExpertInput, 0usize + (r * hs + c)),
    );
    assert forall|c: int| 0 <= c < hs implies #[trigger] gathered[c] == x[c] by {
        moe_meaning::lemma_cell_place(r, hs, c);
    }
    assert(gathered =~= x);
    if m.has_gate_proj {
        let s5 = moe_meaning::step(a, s4, l[4]);
        assert(moe_meaning::after(a, s, l, (l.len() - 1) as nat) == s5);
        let again = Seq::new(
            hs as nat,
            |c: int| (s2.value)(Buf::PrefillMoeExpertInput, 0usize + (r * hs + c)),
        );
        assert(again =~= gathered);
        let found = Seq::new(
            eis as nat,
            |c: int| (s4.value)(Buf::PrefillMoeActOut, 0usize + (r * eis + c)),
        );
        assert forall|c: int| 0 <= c < eis implies #[trigger] found[c] == act[c] by {
            moe_meaning::lemma_cell_place(r, eis, c);
        }
        assert(found =~= act);
    } else {
        assert(moe_meaning::after(a, s, l, (l.len() - 1) as nat) == s4);
        let found = Seq::new(
            eis as nat,
            |c: int| (s3.value)(Buf::PrefillMoeActOut, 0usize + (r * eis + c)),
        );
        assert forall|c: int| 0 <= c < eis implies #[trigger] found[c] == act[c] by {
            moe_meaning::lemma_cell_place(r, eis, c);
        }
        assert(found =~= act);
    }
}

proof fn lemma_batch<V>(
    a: Arithmetic<V>,
    m: &MoeLayer,
    s: Contents<V>,
    ids: Seq<i32>,
    shares: Seq<u32>,
    n: nat,
    expert: nat,
)
    requires
        moe_token::direct(m),
        moe_prefill_single::batch_ok(m, n),
        s.listed == moe_prefill_single::tokens_of(
            ids,
            m.num_active as nat,
            expert,
            n * m.num_active as nat,
        ),
        s.listed_shares == moe_prefill_single::weights_of(
            ids,
            shares,
            expert,
            n * m.num_active as nat,
        ),
    ensures
        ({
            let hs = m.hidden_size as int;
            let t = moe_meaning::run(
                a,
                s,
                moe_prefill_single::batch_ops(m, expert, s.listed.len()),
            );
            &&& rows_kept(s, t)
            &&& forall|u: int, i: int|
                0 <= u && 0 <= i < hs ==> #[trigger] moe_meaning::cell(
                    t,
                    Buf::PrefillMoeFfnOut,
                    u,
                    hs,
                    i,
                ) == expert_sum(
                    a,
                    m,
                    moe_meaning::row_at(s, Buf::PrefillMoeNormed, u, hs as nat),
                    ids,
                    shares,
                    moe_meaning::cell(s, Buf::PrefillMoeFfnOut, u, hs, i),
                    i,
                    u,
                    expert,
                    n * m.num_active as nat,
                )
        }),
{
    let hs = m.hidden_size as int;
    let count = n * m.num_active as nat;
    let rows = s.listed.len();
    moe_prefill_single::lemma_group_len(ids, shares, m.num_active as nat, expert, count);
    arith::lemma_mul_mono(rows as int, count as int, m.expert_intermediate_size as int);
    let l = moe_prefill_single::batch_ops(m, expert, rows);
    let d = moe_meaning::after(a, s, l, (l.len() - 1) as nat);
    let t = moe_meaning::run(a, s, l);
    assert(t == moe_meaning::step(a, d, l.last()));
    assert forall|b: Buf, i: int|
        b == Buf::PrefillHidden || b == Buf::PrefillMoeNormed || b == Buf::PrefillMoeResidual || b
            == Buf::PrefillMoeFfnOut implies #[trigger] (d.value)(b, i) == (s.value)(b, i) by {
        reveal_with_fuel(moe_meaning::after, 6);
    }
    let input = |y: int| (d.value)(Buf::PrefillMoeDownOut, 0usize + y);
    assert(d.listed == s.listed && d.listed_shares == s.listed_shares) by {
        reveal_with_fuel(moe_meaning::after, 6);
    }
    assert forall|u: int, i: int| 0 <= u && 0 <= i < hs implies #[trigger] moe_meaning::cell(
        t,
        Buf::PrefillMoeFfnOut,
        u,
        hs,
        i,
    ) == expert_sum(
        a,
        m,
        moe_meaning::row_at(s, Buf::PrefillMoeNormed, u, hs as nat),
        ids,
        shares,
        moe_meaning::cell(s, Buf::PrefillMoeFfnOut, u, hs, i),
        i,
        u,
        expert,
        count,
    ) by {
        let x = moe_meaning::row_at(s, Buf::PrefillMoeNormed, u, hs as nat);
        let acc = moe_meaning::cell(s, Buf::PrefillMoeFfnOut, u, hs, i);
        moe_meaning::lemma_cell_place(u, hs, i);
        assert forall|r: int| 0 <= r < rows && #[trigger] s.listed[r] == u implies input(
            r * m.hidden_size + i,
        ) == moe_token::expert_out(a, m, x, expert, i) by {
            lemma_batch_row(a, m, s, expert, rows, r, i);
        }
        lemma_scattered(
            a,
            m,
            x,
            ids,
            shares,
            acc,
            input,
            i,
            u,
            n as int,
            expert,
            count,
        );
        assert((d.value)(Buf::PrefillMoeFfnOut, u * hs + i) == acc);
    }
}

// ---- all experts over their tokens ----

/// The first `j` experts' shares of a batch are uploaded and run in turn.
pub open spec fn experts_run<V>(
    a: Arithmetic<V>,
    s: Contents<V>,
    experts: Seq<ExpertBatch>,
    j: nat,
) -> Contents<V>
    decreases j,
{
    if j == 0 {
        s
    } else {
        let before = experts_run(a, s, experts, (j - 1) as nat);
        let e = experts[j - 1];
        moe_meaning::run(a, uploaded(before, e.token_indices@, e.token_weights@), e.ops@)
    }
}

/// Element `i` of token `t` after the first `experts` experts, one after the other.
pub open spec fn sum_by_expert<V>(
    a: Arithmetic<V>,
    m: &MoeLayer,
    x: Seq<V>,
    ids: Seq<i32>,
    shares: Seq<u32>,
    i: int,
    t: int,
    experts: nat,
    count: nat,
) -> V
    decreases experts,
{
    if experts == 0 {
        a.zero
    } else {
        let e = (experts - 1) as nat;
        expert_sum(
            a,
            m,
            x,
            ids,
            shares,
            sum_by_expert(a, m, x, ids, shares, i, t, e, count),
            i,
            t,
            e,
            count,
        )
    }
}

/// An expert that no token chose adds nothing.
proof fn lemma_idle_expert<V>(
    a: Arithmetic<V>,
    m: &MoeLayer,
    x: Seq<V>,
    ids: Seq<i32>,
    shares: Seq<u32>,
    acc: V,
    i: int,
    t: int,
    expert: nat,
    count: nat,
)
    requires
        moe_prefill_single::tokens_of(ids, m.num_active as nat, expert, count).len() == 0,
    ensures
        expert_sum(a, m, x, ids, shares, acc, i, t, expert, count) == acc,
    decreases count,
{
    if count > 0 {
        lemma_idle_expert(a, m, x, ids, shares, acc, i, t, expert, (count - 1) as nat);
    }
}

proof fn lemma_experts_run<V>(
    a: Arithmetic<V>,
    m: &MoeLayer,
    s: Contents<V>,
    plan: Seq<ExpertBatch>,
    ids: Seq<i32>,
    shares: Seq<u32>,
    n: nat,
    experts: nat,
)
    requires
        moe_token::direct(m),
        moe_prefill_single::batch_ok(m, n),
        experts <= m.num_experts,
        plan.len() >= moe_prefill_single::chosen_experts(m, ids, n, experts).len(),
        forall|j: int|
            0 <= j < moe_prefill_single::chosen_experts(m, ids, n, experts).len() ==> (
            #[trigger] plan[j]).is_share(
                m,
                ids,
                shares,
                n,
                moe_prefill_single::chosen_experts(m, ids, n, experts)[j],
            ),
        forall|u: int, i: int|
            0 <= u < n && 0 <= i < m.hidden_size ==> #[trigger] moe_meaning::cell(
                s,
                Buf::PrefillMoeFfnOut,
                u,
                m.hidden_size as int,
                i,
            ) == a.zero,
    ensures
        ({
            let hs = m.hidden_size as int;
            let chosen = moe_prefill_single::chosen_experts(m, ids, n, experts);
            let t = experts_run(a, s, plan, chosen.len());
            &&& rows_kept(s, t)
            &&& forall|u: int, i: int|
                0 <= u < n && 0 <= i < hs ==> #[trigger] moe_meaning::cell(
                    t,
                    Buf::PrefillMoeFfnOut,
                    u,
                    hs,
                    i,
                ) == sum_by_expert(
                    a,
                    m,
                    moe_meaning::row_at(s, Buf::PrefillMoeNormed, u, hs as nat),
                    ids,
                    shares,
                    i,
                    u,
                    experts,
                    n * m.num_active as nat,
                )
        }),
    decreases experts,
{
    if experts > 0 {
        let hs = m.hidden_size as int;
        let e = (experts - 1) as nat;
        let count = n * m.num_active as nat;
        let chosen = moe_prefill_single::chosen_experts(m, ids, n, experts);
        let before = moe_prefill_single::chosen_experts(m, ids, n, e);
        assert forall|j: int| 0 <= j < before.len() implies (#[trigger] plan[j]).is_share(
            m,
            ids,
            shares,
            n,
            before[j],
        ) by {
            assert(chosen[j] == before[j]);
        }
        lemma_experts_run(a, m, s, plan, ids, shares, n, e);
        let p = experts_run(a, s, plan, before.len());
        let tokens = moe_prefill_single::tokens_of(ids, m.num_active as nat, e, count);
        let t = experts_run(a, s, plan, chosen.len());
        if tokens.len() == 0 {
            assert forall|u: int, i: int| 0 <= u < n && 0 <= i < hs implies #[trigger]
            moe_meaning::cell(t, Buf::PrefillMoeFfnOut, u, hs, i) == sum_by_expert(
                a,
                m,
                moe_meaning::row_at(s, Buf::PrefillMoeNormed, u, hs as nat),
                ids,
                shares,
                i,
                u,
                experts,
                count,
            ) by {
                let x = moe_meaning::row_at(s, Buf::PrefillMoeNormed, u, hs as nat);
                let acc = sum_by_expert(a, m, x, ids, shares, i, u, e, count);
                lemma_idle_expert(a, m, x, ids, shares, acc, i, u, e, count);
                assert(moe_meaning::cell(p, Buf::PrefillMoeFfnOut, u, hs, i) == acc);
            }
        } else {
            let b = plan[before.len() as int];
            assert(chosen == before.push(e));
            assert(b.is_share(m, ids, shares, n, e));
            let up = uploaded(p, b.token_indices@, b.token_weights@);
            lemma_batch(a, m, up, ids, shares, n, e);
            assert(t == moe_meaning::run(a, up, b.ops@));
            assert forall|u: int, i: int| 0 <= u < n && 0 <= i < hs implies #[trigger]
            moe_meaning::cell(t, Buf::PrefillMoeFfnOut, u, hs, i) == sum_by_expert(
                a,
                m,
                moe_meaning::row_at(s, Buf::PrefillMoeNormed, u, hs as nat),
                ids,
                shares,
                i,
                u,
                experts,
                count,
            ) by {
                let x = moe_meaning::row_at(s, Buf::PrefillMoeNormed, u, hs as nat);
                assert(moe_meaning::row_at(up, Buf::PrefillMoeNormed, u, hs as nat) =~= x);
                assert(moe_meaning::cell(p, Buf::PrefillMoeFfnOut, u, hs, i) == sum_by_expert(
                    a,
                    m,
                    x,
                    ids,
                    shares,
                    i,
                    u,
                    e,
                    count,
                ));
                assert(moe_meaning::cell(up, Buf::PrefillMoeFfnOut, u, hs, i)
                    == moe_meaning::cell(p, Buf::PrefillMoeFfnOut, u, hs, i));
            }
        }
    }
}

// ---- the order of summation ----

proof fn lemma_swap<V>(a: Arithmetic<V>, v: V, x: V, y: V)
    requires
        a.order_free(),
    ensures
        (a.sum)((a.sum)(v, x), y) == (a.sum)((a.sum)(v, y), x),
{
    reveal(Arithmetic::order_free);
}

/// What was added before an expert's entries may be added after them.
proof fn lemma_sum_slides<V>(
    a: Arithmetic<V>,
    m: &MoeLayer,
    x: Seq<V>,
    ids: Seq<i32>,
    shares: Seq<u32>,
    acc: V,
    v: V,
    i: int,
    t: int,
    expert: nat,
    count: nat,
)
    requires
        a.order_free(),
    ensures
        expert_sum(a, m, x, ids, shares, (a.sum)(acc, v), i, t, expert, count) == (a.sum)(
            expert_sum(a, m, x, ids, shares, acc, i, t, expert, count),
            v,
        ),
    decreases count,
{
    if count > 0 {
        let p = (count - 1) as nat;
        lemma_sum_slides(a, m, x, ids, shares, acc, v, i, t, expert, p);
        lemma_swap(
            a,
            expert_sum(a, m, x, ids, shares, acc, i, t, expert, p),
            v,
            entry(a, m, x, ids, shares, i, count - 1),
        );
    }
}

/// Whether routing entry `f` sends token `t` to one of the first `experts` experts.
pub open spec fn sends(m: &MoeLayer, ids: Seq<i32>, t: int, experts: nat, f: int) -> bool {
    f / m.num_active as int == t && 0 <= ids[f] < experts
}

/// One more routing entry adds one summand, whichever expert it names.
proof fn lemma_one_more_entry<V>(
    a: Arithmetic<V>,
    m: &MoeLayer,
    x: Seq<V>,
    ids: Seq<i32>,
    shares: Seq<u32>,
    i: int,
    t: int,
    experts: nat,
    count: nat,
)
    requires
        a.order_free(),
        count > 0,
    ensures
        ({
            let before = sum_by_expert(
                a,
                m,
                x,
                ids,
                shares,
                i,
                t,
                experts,
                (count - 1) as nat,
            );
            sum_by_expert(a, m, x, ids, shares, i, t, experts, count) == if sends(
                m,
                ids,
                t,
                experts,
                count - 1,
            ) {
                (a.sum)(before, entry(a, m, x, ids, shares, i, count - 1))
            } else {
                before
            }
        }),
    decreases experts,
{
    if experts > 0 {
        let e = (experts - 1) as nat;
        let p = (count - 1) as nat;
        lemma_one_more_entry(a, m, x, ids, shares, i, t, e, count);
        if sends(m, ids, t, e, count - 1) {
            lemma_sum_slides(
                a,
                m,
                x,
                ids,
                shares,
                sum_by_expert(a, m, x, ids, shares, i, t, e, p),
                entry(a, m, x, ids, shares, i, count - 1),
                i,
                t,
                e,
                p,
            );
        }
    }
}

proof fn lemma_no_entries<V>(
    a: Arithmetic<V>,
    m: &MoeLayer,
    x: Seq<V>,
    ids: Seq<i32>,
    shares: Seq<u32>,
    i: int,
    t: int,
    experts: nat,
)
    ensures
        sum_by_expert(a, m, x, ids, shares, i, t, experts, 0) == a.zero,
    decreases experts,
{
    if experts > 0 {
        lemma_no_entries(a, m, x, ids, shares, i, t, (experts - 1) as nat);
    }
}

/// Places of token `t`'s routing among the first `count` entries.
pub open spec fn places(m: &MoeLayer, t: int, count: nat) -> nat {
    let k = m.num_active as int;
    if count <= t * k {
        0
    } else if count <= t * k + k {
        (count - t * k) as nat
    } else {
        k as nat
    }
}

/// Summed expert by expert or in routing order, a token's experts give the same.
proof fn lemma_same_sum<V>(
    a: Arithmetic<V>,
    m: &MoeLayer,
    x: Seq<V>,
    ids: Seq<i32>,
    shares: Seq<u32>,
    own_ids: Seq<i32>,
    own_shares: Seq<u32>,
    i: int,
    t: int,
    n: int,
    count: nat,
)
    requires
        a.order_free(),
        0 <= t < n,
        count <= n * m.num_active,
        forall|f: int| 0 <= f < count ==> 0 <= (#[trigger] ids[f]) < m.num_experts,
        forall|j: int|
            0 <= j < m.num_active ==> (#[trigger] own_ids[j]) == ids[t * m.num_active + j],
        forall|j: int|
            0 <= j < m.num_active ==> (#[trigger] own_shares[j]) == shares[t * m.num_active + j],
    ensures
        sum_by_expert(a, m, x, ids, shares, i, t, m.num_experts as nat, count) == moe_token::experts_sum(
            a,
            m,
            x,
            own_ids,
            own_shares,
            a.zero,
            i,
            places(m, t, count),
        ),
    decreases count,
{
    let k = m.num_active as int;
    if count == 0 {
        lemma_no_entries(a, m, x, ids, shares, i, t, m.num_experts as nat);
        assert(0 <= t * k) by (nonlinear_arith)
            requires
                0 <= t,
                0 <= k,
        ;
    } else {
        let f = count - 1;
        lemma_same_sum(
            a,
            m,
            x,
            ids,
            shares,
            own_ids,
            own_shares,
            i,
            t,
            n,
            (count - 1) as nat,
        );
        lemma_one_more_entry(a, m, x, ids, shares, i, t, m.num_experts as nat, count);
        assert(k > 0) by (nonlinear_arith)
            requires
                0 < count <= n * k,
                n >= 0,
                k >= 0,
        ;
        if t * k <= f < t * k + k {
            moe_meaning::lemma_cell_place(t, k, f - t * k);
            assert(own_ids[f - t * k] == ids[f]);
            assert(own_shares[f - t * k] == shares[f]);
        } else {
            vstd::arithmetic::div_mod::lemma_fundamental_div_mod(f, k);
            assert(k * (f / k) == (f / k) * k) by (nonlinear_arith);
            assert(f / k != t);
        }
    }
}

// ---- the end of a batch ----

/// Contents of the rows that the end of a batch reads are as before.
pub open spec fn results_kept<V>(s: Contents<V>, t: Contents<V>) -> bool {
    forall|b: Buf, i: int|
        b == Buf::PrefillMoeFfnOut || b == Buf::PrefillMoeNormed || b == Buf::PrefillMoeResidual
            ==> #[trigger] (t.value)(b, i) == (s.value)(b, i)
}

/// Element `i` of token `t`'s new hidden state, put together from its rows.
pub open spec fn finished<V>(a: Arithmetic<V>, m: &MoeLayer, s: Contents<V>, t: int, i: int) -> V {
    let hs = m.hidden_size as int;
    (a.sum)(
        moe_meaning::cell(s, Buf::PrefillMoeResidual, t, hs, i),
        moe_token::with_shared(
            a,
            m,
            moe_meaning::row_at(s, Buf::PrefillMoeNormed, t, hs as nat),
            moe_meaning::cell(s, Buf::PrefillMoeFfnOut, t, hs, i),
            i,
        ),
    )
}

proof fn lemma_finish_token<V>(a: Arithmetic<V>, m: &MoeLayer, s: Contents<V>, t: nat)
    requires
        t * m.hidden_size <= usize::MAX,
    ensures
        ({
            let hs = m.hidden_size as int;
            let r = moe_meaning::run(a, s, moe_prefill_single::finish_token(m, t));
            &&& results_kept(s, r)
            &&& forall|i: int|
                0 <= i < hs ==> #[trigger] moe_meaning::cell(
                    r,
                    Buf::PrefillHidden,
                    t as int,
                    hs,
                    i,
                ) == finished(a, m, s, t as int, i)
            &&& forall|j: int|
                !(t * hs <= j < t * hs + hs) ==> #[trigger] (r.value)(Buf::PrefillHidden, j) == (
                s.value)(Buf::PrefillHidden, j)
        }),
{
    let hs = m.hidden_size as int;
    arith::lemma_mul_mono(0, t as int, hs);
    let l = moe_prefill_single::finish_token(m, t);
    let first = seq![
        Op::Copy {
            dst: ops::start(Buf::FfnDown),
            src: moe_prefill_single::row(Buf::PrefillMoeFfnOut, t, hs as nat),
            len: m.hidden_size,
        },
    ];
    let restore = if m.has_shared {
        seq![
            Op::Copy {
                dst: ops::start(Buf::Normed),
                src: moe_prefill_single::row(Buf::PrefillMoeNormed, t, hs as nat),
                len: m.hidden_size,
            },
        ]
    } else {
        Seq::empty()
    };
    let shared = moe_forward::shared_ops(m);
    let last = seq![
        Op::Copy {
            dst: ops::start(Buf::Residual),
            src: moe_prefill_single::row(Buf::PrefillMoeResidual, t, hs as nat),
            len: m.hidden_size,
        },
        Op::ResidualAdd {
            out: ops::start(Buf::Hidden),
            a: ops::start(Buf::Residual),
            b: ops::start(Buf::FfnDown),
            len: m.hidden_size,
        },
        moe_prefill_single::copy_out(m, t),
    ];
    assert(l =~= first + restore + shared + last);
    moe_meaning::lemma_run_joined(a, s, first + restore + shared, last);
    moe_meaning::lemma_run_joined(a, s, first + restore, shared);
    moe_meaning::lemma_run_joined(a, s, first, restore);
    reveal_with_fuel(moe_meaning::after, 4);
    let s1 = moe_meaning::step(a, s, first[0]);
    assert(moe_meaning::run(a, s, first) == s1);
    let s2 = moe_meaning::run(a, s1, restore);
    let x = moe_meaning::row_at(s, Buf::PrefillMoeNormed, t as int, hs as nat);
    if m.has_shared {
        assert(s2 == moe_meaning::step(a, s1, restore[0]));
        assert(moe_meaning::read(s2, ops::start(Buf::Normed), hs as nat) =~= x);
    } else {
        assert(s2 == s1);
    }
    let found = moe_meaning::read(s2, ops::start(Buf::Normed), hs as nat);
    moe_token::lemma_shared(a, m, s2, found);
    let s3 = moe_meaning::run(a, s2, shared);
    let s4 = moe_meaning::step(a, s3, last[0]);
    let s5 = moe_meaning::step(a, s4, last[1]);
    let s6 = moe_meaning::step(a, s5, last[2]);
    let r = moe_meaning::run(a, s, l);
    assert(r == s6);
    assert forall|i: int| 0 <= i < hs implies #[trigger] moe_meaning::cell(
        r,
        Buf::PrefillHidden,
        t as int,
        hs,
        i,
    ) == finished(a, m, s, t as int, i) by {
        assert((s3.value)(Buf::FfnDown, i) == moe_token::with_shared(
            a,
            m,
            found,
            (s2.value)(Buf::FfnDown, i),
            i,
        ));
    }
}

proof fn lemma_finish<V>(a: Arithmetic<V>, m: &MoeLayer, s: Contents<V>, n: nat)
    requires
        n * m.hidden_size <= usize::MAX,
    ensures
        ({
            let hs = m.hidden_size as int;
            let r = moe_meaning::run(a, s, moe_prefill_single::finish_tokens(m, n));
            &&& results_kept(s, r)
            &&& forall|u: int, i: int|
                0 <= u < n && 0 <= i < hs ==> #[trigger] moe_meaning::cell(
                    r,
                    Buf::PrefillHidden,
                    u,
                    hs,
                    i,
                ) == finished(a, m, s, u, i)
            &&& forall|j: int|
                n * hs <= j ==> #[trigger] (r.value)(Buf::PrefillHidden, j) == (s.value)(
                    Buf::PrefillHidden,
                    j,
                )
        }),
    decreases n,
{
    if n > 0 {
        let hs = m.hidden_size as int;
        let t = (n - 1) as nat;
        arith::lemma_scaled_index(t as int, n as int, hs);
        lemma_finish(a, m, s, t);
        let first = moe_prefill_single::finish_tokens(m, t);
        let l = moe_prefill_single::finish_token(m, t);
        moe_meaning::lemma_run_joined(a, s, first, l);
        let p = moe_meaning::run(a, s, first);
        lemma_finish_token(a, m, p, t);
        let r = moe_meaning::run(a, p, l);
        assert forall|u: int, i: int| 0 <= u < n && 0 <= i < hs implies #[trigger]
        moe_meaning::cell(r, Buf::PrefillHidden, u, hs, i) == finished(a, m, s, u, i) by {
            moe_meaning::lemma_rows_apart(u, t as int, hs, i);
            if u < t {
                assert(moe_meaning::cell(p, Buf::PrefillHidden, u, hs, i) == finished(
                    a,
                    m,
                    s,
                    u,
                    i,
                ));
            } else {
                assert(moe_meaning::row_at(p, Buf::PrefillMoeNormed, u, hs as nat)
                    =~= moe_meaning::row_at(s, Buf::PrefillMoeNormed, u, hs as nat));
            }
        }
        assert(t * hs + hs == n * hs) by (nonlinear_arith)
            requires
                t + 1 == n,
        ;
    }
}

// ---- a batch ----

/// The contents once the batch is routed; expert numbers and shares are read from here.
pub open spec fn batch_routed<V>(
    a: Arithmetic<V>,
    m: &MoeLayer,
    s: Contents<V>,
    n: nat,
) -> Contents<V> {
    moe_meaning::run(a, s, moe_prefill_single::route_tokens(m, n) + seq![Op::Sync])
}

/// A batch passes the layer by a plan made after its routing.
pub open spec fn grouped<V>(
    a: Arithmetic<V>,
    m: &MoeLayer,
    s: Contents<V>,
    n: nat,
    plan: &SingleGpuPlan,
) -> Contents<V> {
    let cleared = moe_meaning::step(a, batch_routed(a, m, s, n), plan.clear);
    let summed = experts_run(a, cleared, plan.experts@, plan.experts@.len());
    moe_meaning::run(a, summed, plan.finish@)
}

/// The plan was made from what routing left in the buffers.
pub open spec fn plan_follows<V>(
    a: Arithmetic<V>,
    m: &MoeLayer,
    s: Contents<V>,
    n: nat,
    plan: &SingleGpuPlan,
) -> bool {
    let r = batch_routed(a, m, s, n);
    let count = n * m.num_active as nat;
    plan.is_plan(
        m,
        moe_token::read_ids(r, Buf::PrefillMoeIds, count),
        moe_token::read_shares(r, Buf::PrefillMoeWeights, count),
        n,
    )
}

proof fn lemma_batch_routed<V>(a: Arithmetic<V>, m: &MoeLayer, s: Contents<V>, n: nat)
    requires
        moe_token::direct(m),
        moe_prefill_single::batch_ok(m, n),
    ensures
        routed(a, m, s, batch_routed(a, m, s, n), n as int),
{
    let l = moe_prefill_single::route_tokens(m, n);
    lemma_route_tokens(a, m, s, n);
    moe_meaning::lemma_run_joined(a, s, l, seq![Op::Sync]);
    reveal_with_fuel(moe_meaning::after, 2);
    assert(batch_routed(a, m, s, n) == moe_meaning::run(a, s, l));
}

/// The sum over a token's experts comes out the same.
proof fn lemma_token_sum<V>(
    a: Arithmetic<V>,
    m: &MoeLayer,
    s: Contents<V>,
    n: nat,
    t: int,
    i: int,
)
    requires
        moe_token::direct(m),
        moe_prefill_single::batch_ok(m, n),
        a.order_free(),
        a.routes(),
        0 <= t < n,
    ensures
        ({
            let r = batch_routed(a, m, s, n);
            let count = n * m.num_active as nat;
            let x = moe_token::token(m, s, t);
            sum_by_expert(
                a,
                m,
                moe_token::normed(a, m, x),
                moe_token::read_ids(r, Buf::PrefillMoeIds, count),
                moe_token::read_shares(r, Buf::PrefillMoeWeights, count),
                i,
                t,
                m.num_experts as nat,
                count,
            ) == moe_token::experts_sum(
                a,
                m,
                moe_token::normed(a, m, x),
                moe_token::routed_ids(a, m, x),
                moe_token::routed_shares(a, m, x),
                a.zero,
                i,
                m.num_active as nat,
            )
        }),
{
    let k = m.num_active as int;
    let count = n * m.num_active as nat;
    let r = batch_routed(a, m, s, n);
    let ids = moe_token::read_ids(r, Buf::PrefillMoeIds, count);
    let shares = moe_token::read_shares(r, Buf::PrefillMoeWeights, count);
    let x = moe_token::token(m, s, t);
    lemma_batch_routed(a, m, s, n);
    assert forall|f: int| 0 <= f < count implies 0 <= (#[trigger] ids[f]) < m.num_experts by {
        assert(k > 0) by (nonlinear_arith)
            requires
                0 <= f < n * k,
                n >= 0,
                k >= 0,
        ;
        let (u, j) = (f / k, f % k);
        vstd::arithmetic::div_mod::lemma_fundamental_div_mod(f, k);
        vstd::arithmetic::div_mod::lemma_mod_bound(f, k);
        vstd::arithmetic::div_mod::lemma_div_pos_is_pos(f, k);
        assert(n * k == k * n && k * u == u * k) by (nonlinear_arith);
        vstd::arithmetic::div_mod::lemma_multiply_divide_lt(f, k, n as int);
        assert(id_cell(r, u, k, j) == moe_token::routed_ids(a, m, moe_token::token(m, s, u))[j]);
    }
    arith::lemma_scaled_index(t, n as int, k);
    assert forall|j: int| 0 <= j < k implies (#[trigger] moe_token::routed_ids(a, m, x)[j]) == ids[t * k
        + j] by {
        assert(id_cell(r, t, k, j) == moe_token::routed_ids(a, m, x)[j]);
    }
    assert forall|j: int| 0 <= j < k implies (#[trigger] moe_token::routed_shares(a, m, x)[j]) == shares[t
        * k + j] by {
        assert(share_cell(r, t, k, j) == moe_token::routed_shares(a, m, x)[j]);
    }
    lemma_same_sum(
        a,
        m,
        moe_token::normed(a, m, x),
        ids,
        shares,
        moe_token::routed_ids(a, m, x),
        moe_token::routed_shares(a, m, x),
        i,
        t,
        n as int,
        count,
    );
}

proof fn lemma_grouped<V>(
    a: Arithmetic<V>,
    m: &MoeLayer,
    s: Contents<V>,
    n: nat,
    plan: &SingleGpuPlan,
)
    requires
        moe_token::direct(m),
        !m.has_fc2,
        moe_prefill_single::batch_ok(m, n),
        a.order_free(),
        a.routes(),
        plan_follows(a, m, s, n, plan),
    ensures
        moe_token::passed(a, m, s, grouped(a, m, s, n, plan), n as int),
{
    let hs = m.hidden_size as int;
    let count = n * m.num_active as nat;
    let r = batch_routed(a, m, s, n);
    let ids = moe_token::read_ids(r, Buf::PrefillMoeIds, count);
    let shares = moe_token::read_shares(r, Buf::PrefillMoeWeights, count);
    lemma_batch_routed(a, m, s, n);
    let z = moe_meaning::step(a, r, plan.clear);
    assert forall|u: int, i: int| 0 <= u < n && 0 <= i < hs implies #[trigger] moe_meaning::cell(
        z,
        Buf::PrefillMoeFfnOut,
        u,
        hs,
        i,
    ) == a.zero by {
        arith::lemma_scaled_index(u, n as int, hs);
    }
    lemma_experts_run(a, m, z, plan.experts@, ids, shares, n, m.num_experts as nat);
    let e = experts_run(a, z, plan.experts@, plan.experts@.len());
    let l = moe_prefill_single::finish_tokens(m, n);
    lemma_finish(a, m, e, n);
    moe_meaning::lemma_run_joined(a, e, l, seq![Op::Sync]);
    let g = grouped(a, m, s, n, plan);
    assert(g == moe_meaning::run(a, e, l)) by {
        reveal_with_fuel(moe_meaning::after, 2);
    }
    assert forall|u: int, i: int| 0 <= u < n && 0 <= i < hs implies #[trigger] moe_meaning::cell(
        g,
        Buf::PrefillHidden,
        u,
        hs,
        i,
    ) == moe_token::layer_out(a, m, moe_token::token(m, s, u), i) by {
        let x = moe_token::token(m, s, u);
        let kept = moe_meaning::row_at(z, Buf::PrefillMoeNormed, u, hs as nat);
        assert forall|c: int| 0 <= c < hs implies #[trigger] kept[c] == moe_token::normed(a, m, x)[c] by {
            assert(moe_meaning::cell(r, Buf::PrefillMoeNormed, u, hs, c) == moe_token::normed(a, m, x)[c]);
        }
        assert(kept =~= moe_token::normed(a, m, x));
        assert(moe_meaning::row_at(e, Buf::PrefillMoeNormed, u, hs as nat) =~= kept);
        assert(moe_meaning::cell(r, Buf::PrefillMoeResidual, u, hs, i) == x[i]);
        lemma_token_sum(a, m, s, n, u, i);
        assert(moe_meaning::cell(e, Buf::PrefillMoeFfnOut, u, hs, i) == sum_by_expert(
            a,
            m,
            moe_token::normed(a, m, x),
            ids,
            shares,
            i,
            u,
            m.num_experts as nat,
            count,
        ));
        assert(moe_meaning::cell(g, Buf::PrefillHidden, u, hs, i) == finished(a, m, e, u, i));
    }
}

/// Expert by expert, a batch comes out as it does token by token, whatever the
/// arithmetic, as long as summands may come in any order and the router names experts
/// that exist. Rows behind the batch stay as they were.
///
/// Machine addition rounds, so on a device the two agree up to the order of summation.
pub proof fn law_grouping_keeps_results<V>(
    a: Arithmetic<V>,
    m: &MoeLayer,
    s: Contents<V>,
    n: nat,
    plan: &SingleGpuPlan,
)
    requires
        moe_token::direct(m),
        !m.has_fc2,
        moe_prefill_single::batch_ok(m, n),
        a.order_free(),
        a.routes(),
        plan_follows(a, m, s, n, plan),
    ensures
        forall|j: int|
            0 <= j ==> #[trigger] (grouped(a, m, s, n, plan).value)(Buf::PrefillHidden, j) == (
            moe_token::one_by_one(a, m, s, n).value)(Buf::PrefillHidden, j),
        forall|j: int|
            n * m.hidden_size <= j ==> #[trigger] (grouped(a, m, s, n, plan).value)(
                Buf::PrefillHidden,
                j,
            ) == (s.value)(Buf::PrefillHidden, j),
{
    lemma_grouped(a, m, s, n, plan);
    moe_token::lemma_one_by_one(a, m, s, n);
    moe_token::lemma_passed_agree(
        a,
        m,
        s,
        grouped(a, m, s, n, plan),
        moe_token::one_by_one(a, m, s, n),
        n,
    );
}

/// Expert by expert, each token of a batch comes out as the layer leaves it in the
/// hidden buffer when it is started there, whatever else the buffers hold.
pub proof fn law_grouped_row_is_token_pass<V>(
    a: Arithmetic<V>,
    m: &MoeLayer,
    s: Contents<V>,
    n: nat,
    plan: &SingleGpuPlan,
    alone: Contents<V>,
    t: int,
)
    requires
        moe_token::direct(m),
        !m.has_fc2,
        moe_prefill_single::batch_ok(m, n),
        a.order_free(),
        a.routes(),
        plan_follows(a, m, s, n, plan),
        0 <= t < n,
        moe_meaning::read(alone, ops::start(Buf::Hidden), m.hidden_size as nat) == moe_token::token(m, s, t),
    ensures
        forall|i: int|
            0 <= i < m.hidden_size ==> #[trigger] moe_meaning::cell(
                grouped(a, m, s, n, plan),
                Buf::PrefillHidden,
                t,
                m.hidden_size as int,
                i,
            ) == (moe_token::token_pass(a, m, alone).value)(Buf::Hidden, i),
{
    lemma_grouped(a, m, s, n, plan);
    moe_token::lemma_token_pass(a, m, alone, moe_token::token(m, s, t));
}

/// The contents after the first `j` steps of a batch that has no grouped step.
pub open spec fn steps_run<V>(
    a: Arithmetic<V>,
    m: &MoeLayer,
    s: Contents<V>,
    steps: Seq<BatchStep>,
    j: nat,
) -> Contents<V>
    decreases j,
{
    if j == 0 {
        s
    } else {
        let before = steps_run(a, m, s, steps, (j - 1) as nat);
        match steps[j - 1] {
            BatchStep::Run(op) => moe_meaning::step(a, before, op),
            BatchStep::TokenPass => moe_token::token_pass(a, m, before),
            BatchStep::GroupedPass => before,
        }
    }
}

proof fn lemma_steps_prefix<V>(
    a: Arithmetic<V>,
    m: &MoeLayer,
    s: Contents<V>,
    p: Seq<BatchStep>,
    q: Seq<BatchStep>,
    j: nat,
)
    requires
        j <= p.len(),
    ensures
        steps_run(a, m, s, p + q, j) == steps_run(a, m, s, p, j),
    decreases j,
{
    if j > 0 {
        lemma_steps_prefix(a, m, s, p, q, (j - 1) as nat);
        assert((p + q)[j - 1] == p[j - 1]);
    }
}

/// A batch that cannot be grouped is exactly its tokens one by one, for any layer and
/// any arithmetic.
pub proof fn law_ungrouped_is_token_by_token<V>(
    a: Arithmetic<V>,
    m: &MoeLayer,
    s: Contents<V>,
    n: nat,
)
    ensures
        ({
            let steps = moe_prefill_single::token_steps(m, n);
            steps_run(a, m, s, steps, steps.len()) == moe_token::one_by_one(a, m, s, n)
        }),
    decreases n,
{
    if n > 0 {
        let t = (n - 1) as nat;
        law_ungrouped_is_token_by_token(a, m, s, t);
        let p = moe_prefill_single::token_steps(m, t);
        let q = seq![
            BatchStep::Run(moe_prefill_single::copy_in(m, t)),
            BatchStep::TokenPass,
            BatchStep::Run(moe_prefill_single::copy_out(m, t)),
        ];
        lemma_steps_prefix(a, m, s, p, q, p.len());
        reveal_with_fuel(steps_run, 4);
        assert((p + q)[p.len() as int] == q[0]);
        assert((p + q)[p.len() as int + 1] == q[1]);
        assert((p + q)[p.len() as int + 2] == q[2]);
    }
}

} // verus!
