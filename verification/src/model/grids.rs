//! Every mailbox instruction is launched with threads for all it writes, and only those
//! that must wait for another GPU, or be seen by one, carry a signal.

use vstd::prelude::*;
use crate::arith;
use crate::config::ModelConfig;
use crate::model::head_parallel;
use crate::model::head_parallel_meaning;
use crate::model::head_parallel_meaning::Shared;
use crate::model::moe_forward::MoeLayer;
use crate::model::moe_prefill;
use crate::model::moe_prefill::LocalExperts;
use crate::model::prefill;
use crate::moe_p2p::MAX_ACTIVE_EXPERTS;
use crate::ops;
use crate::ops::{Buf, Inst, Op, Signal, SignalSlot, BLOCK};

verus! {

/// The blocks have a thread for each of `len` elements, and no block is idle.
pub open spec fn covers(grid: Option<usize>, len: int) -> bool {
    grid matches Some(g) && len <= g * BLOCK < len + BLOCK
}

/// An instruction is launched with the blocks its operation needs: one per 256 elements,
/// per output row, or per head; a norm takes a single one. Routing and gating fix their own.
pub open spec fn manned(i: Inst) -> bool {
    match i.op {
        Op::Copy { len, .. } => covers(i.grid, len as int),
        Op::Embedding { dim, .. } => covers(i.grid, dim as int),
        Op::SiluMul { len, .. } => covers(i.grid, len as int),
        Op::ReluSq { len, .. } => covers(i.grid, len as int),
        Op::ResidualAdd { len, .. } => covers(i.grid, len as int),
        Op::ScaleAdd { len, .. } => covers(i.grid, len as int),
        Op::Deinterleave { heads, head_dim, .. } => covers(i.grid, heads * head_dim),
        Op::Linear { out_dim, .. } => i.grid == Some(out_dim),
        Op::PagedAttention { local_q_heads, .. } => i.grid == Some(local_q_heads),
        Op::RmsNorm { .. } => i.grid == Some(1usize),
        Op::Nop => i.grid == Some(1usize),
        Op::MoeGate { .. } => i.grid is None,
        Op::DotSigmoidScaleAdd { .. } => i.grid is None,
        _ => false,
    }
}

/// An instruction that concerns its own GPU alone.
pub open spec fn alone(i: Inst) -> bool {
    manned(i) && i.signal is None && i.wait is None
}

/// All instructions of a list concern their own GPU alone.
pub open spec fn all_alone(list: Seq<Inst>) -> bool {
    forall|k: int| 0 <= k < list.len() ==> alone(#[trigger] list[k])
}

proof fn lemma_blocks(len: nat)
    requires
        len <= usize::MAX,
    ensures
        covers(Some(ops::blocks(len) as usize), len as int),
{
    arith::lemma_ceil_div(len as int, BLOCK as int);
}

proof fn lemma_joined(a: Seq<Inst>, b: Seq<Inst>)
    requires
        all_alone(a),
        all_alone(b),
    ensures
        all_alone(a + b),
{
}

/// Embedding a chunk.
pub proof fn law_embedding_manned(config: &ModelConfig, tokens: Seq<u32>)
    ensures
        all_alone(prefill::embed_insts(config, tokens)),
{
    lemma_blocks(config.hidden_size as nat);
}

// ---- shared attention ----

proof fn lemma_kv_write(
    config: &ModelConfig,
    gpu: nat,
    attn: nat,
    row: nat,
    k: Buf,
    v: Buf,
    heads: nat,
)
    ensures
        all_alone(head_parallel::kv_write(config, gpu, attn, row, k, v, heads)),
    decreases heads,
{
    if heads > 0 {
        lemma_kv_write(config, gpu, attn, row, k, v, (heads - 1) as nat);
        lemma_blocks(config.head_dim as nat);
    }
}

proof fn lemma_gather(q_elems: nat, dst: Buf, gate: bool, count: nat)
    requires
        q_elems <= usize::MAX,
    ensures
        all_alone(head_parallel::gather_from(q_elems, dst, gate, count)),
    decreases count,
{
    if count > 1 {
        lemma_gather(q_elems, dst, gate, (count - 1) as nat);
        lemma_blocks(q_elems);
    }
}

/// The batches of shared attention, and what GPU 0 runs to collect. Only a worker's first
/// instruction waits, and only where workers project themselves.
pub proof fn law_attention_manned(config: &ModelConfig, c: Shared, g: nat, row: nat)
    requires
        head_parallel_meaning::possible(config, c),
        g < c.num_gpus,
    ensures
        ({
            let n = c.num_gpus as nat;
            let list = head_parallel::gpu_batch(
                config,
                g,
                n,
                c.attn,
                c.position,
                row,
                c.distributed,
            );
            &&& forall|k: int|
                0 <= k < list.len() ==> manned(#[trigger] list[k]) && list[k].signal is None
            &&& forall|k: int|
                0 <= k < list.len() && (#[trigger] list[k]).wait is Some ==> k == 0 && g > 0
                    && c.distributed
            &&& all_alone(head_parallel::gather_insts(config, n, c.distributed))
        }),
{
    let n = c.num_gpus as nat;
    let heads = config.num_kv_heads as nat;
    let attn = c.attn as nat;
    head_parallel_meaning::lemma_parts(config, c, g as int);
    let q_elems = head_parallel_meaning::share(config, c) as nat;
    lemma_kv_write(
        config,
        g,
        attn,
        row,
        head_parallel::k_buf(g),
        head_parallel::v_buf(g),
        heads,
    );
    lemma_kv_write(config, g, attn, row, Buf::KAttn, Buf::VAttn, heads);
    lemma_blocks(q_elems);
    lemma_blocks(config.hidden_size as nat);
    lemma_gather(q_elems, Buf::AttnOut, false, n);
    lemma_gather(q_elems, Buf::GateAttn, true, n);
}

// ---- spread experts ----

proof fn lemma_route_tokens(m: &MoeLayer, n: nat)
    ensures
        all_alone(moe_prefill::route_tokens(m, n)),
    decreases n,
{
    if n > 0 {
        lemma_route_tokens(m, (n - 1) as nat);
        let one = moe_prefill::route_token(m, (n - 1) as nat);
        assert(all_alone(one));
        lemma_joined(moe_prefill::route_tokens(m, (n - 1) as nat), one);
    }
}

proof fn lemma_local_experts(
    m: &MoeLayer,
    local: &LocalExperts,
    ids: Seq<i32>,
    weights: Seq<u32>,
    t: nat,
    count: nat,
)
    ensures
        all_alone(moe_prefill::local_experts(m, local, ids, weights, t, count)),
    decreases count,
{
    if count > 0 {
        lemma_local_experts(m, local, ids, weights, t, (count - 1) as nat);
        lemma_blocks(m.expert_intermediate_size as nat);
        lemma_blocks(m.gate_up_in_dim as nat);
        let at = t * MAX_ACTIVE_EXPERTS + (count - 1);
        match local.slot_map@[ids[at] as int] {
            Some(slot) => {
                let one = moe_prefill::local_expert(m, local, t, slot as nat, weights[at]);
                assert(all_alone(one));
            },
            None => {},
        }
    }
}

proof fn lemma_sum_slots(m: &MoeLayer, t: nat, num_gpus: nat, count: nat)
    ensures
        all_alone(moe_prefill::sum_slots(m, t, num_gpus, count)),
    decreases count,
{
    if count > 0 {
        lemma_sum_slots(m, t, num_gpus, (count - 1) as nat);
        lemma_blocks(m.gate_up_in_dim as nat);
    }
}

/// A batch through spread experts. Staging signals once its copy can be seen, and the batch
/// ends with an instruction behind it.
pub proof fn law_experts_manned(
    m: &MoeLayer,
    local: &LocalExperts,
    ids: Seq<i32>,
    weights: Seq<u32>,
    t: nat,
    n: nat,
    num_gpus: nat,
)
    requires
        n * m.gate_up_in_dim <= usize::MAX,
    ensures
        all_alone(moe_prefill::route_tokens(m, n)),
        ({
            let stage = moe_prefill::stage_insts(m, n);
            &&& stage.len() == 2
            &&& manned(stage[0])
            &&& stage[0].op is Copy
            &&& stage[0].signal == Some(Signal { slot: SignalSlot::PrefillDrain, value: 1 })
            &&& stage[0].wait is None
            &&& alone(stage[1])
            &&& stage[1].op is Nop
        }),
        all_alone(moe_prefill::local_token(m, local, ids, weights, t, num_gpus)),
        all_alone(moe_prefill::combine_token(m, t, num_gpus)),
{
    lemma_route_tokens(m, n);
    lemma_local_experts(m, local, ids, weights, t, m.num_active as nat);
    lemma_sum_slots(m, t, num_gpus, num_gpus);
    lemma_blocks(m.gate_up_in_dim as nat);
    lemma_blocks(m.hidden_size as nat);
    lemma_blocks(m.shared_width() as nat);
    lemma_blocks(n * m.gate_up_in_dim as nat);
    let shared = moe_prefill::shared_insts(m);
    assert(all_alone(shared));
}

} // verus!
