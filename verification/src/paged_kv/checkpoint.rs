//! Copy plans that save and restore recurrent state.

use vstd::prelude::*;
use crate::arith;
use crate::paged_kv::chunk::ChunkCopy;
use crate::paged_kv::slots::{HipError, RecurrentCheckpointPool};

verus! {

/// Bytes of one layer's state when `layers` states share a slot of `state_bytes`.
pub open spec fn layer_state_bytes(state_bytes: nat, layers: nat) -> nat {
    state_bytes / layers / 4 * 4
}

/// The state buffers, copied one after another into the slot at `slot_addr`.
pub open spec fn save_plan(slot_addr: nat, state_bytes: nat, states: Seq<usize>) -> Seq<ChunkCopy> {
    let per_layer = layer_state_bytes(state_bytes, states.len());
    Seq::new(
        states.len(),
        |i: int|
            ChunkCopy {
                dst: (slot_addr + i * per_layer) as usize,
                src: states[i],
                bytes: per_layer as usize,
            },
    )
}

/// The same pieces, copied back.
pub open spec fn restore_plan(slot_addr: nat, state_bytes: nat, states: Seq<usize>) -> Seq<
    ChunkCopy,
> {
    let per_layer = layer_state_bytes(state_bytes, states.len());
    Seq::new(
        states.len(),
        |i: int|
            ChunkCopy {
                dst: states[i],
                src: (slot_addr + i * per_layer) as usize,
                bytes: per_layer as usize,
            },
    )
}

/// All layers together fit the slot.
proof fn lemma_layers_fit(state_bytes: nat, layers: nat)
    requires
        layers > 0,
    ensures
        layers * layer_state_bytes(state_bytes, layers) <= state_bytes,
{
    let per = state_bytes / layers;
    let whole = layer_state_bytes(state_bytes, layers);
    assert(whole <= per);
    assert(layers * whole <= layers * per) by (nonlinear_arith)
        requires
            whole <= per,
    ;
    assert(layers * per <= state_bytes) by {
        vstd::arithmetic::div_mod::lemma_fundamental_div_mod(state_bytes as int, layers as int);
        vstd::arithmetic::div_mod::lemma_mod_bound(state_bytes as int, layers as int);
    }
}

/// Takes a slot for the current recurrent states and plans the copies into it.
/// Fails when no slot is free; nothing changes then.
pub fn save_checkpoint(pool: &mut RecurrentCheckpointPool, recurrent_states: &[usize]) -> (r: Result<
    (u32, Vec<ChunkCopy>),
    HipError,
>)
    requires
        old(pool).wf(),
        recurrent_states@.len() > 0,
    ensures
        final(pool).wf(),
        final(pool).cpu_base() == old(pool).cpu_base(),
        old(pool)@.no_double() ==> final(pool)@.no_double(),
        r is Err <==> old(pool)@.free.len() == 0,
        r is Err ==> r->Err_0 == HipError::OutOfMemory && final(pool)@ == old(pool)@,
        r matches Ok((slot, copies)) ==> {
            &&& slot == old(pool)@.free.last()
            &&& slot < old(pool)@.capacity
            &&& final(pool)@ == old(pool)@.allocated()
            &&& copies@ == save_plan(
                old(pool)@.addr(slot as nat),
                old(pool)@.slot_bytes,
                recurrent_states@,
            )
        },
{
    match pool.alloc_slot() {
        None => Err(HipError::OutOfMemory),
        Some((slot, dst_ptr)) => {
            let n: usize = recurrent_states.len();
            let floats_per_layer: usize = pool.state_bytes() / n / 4;
            let bytes: usize = floats_per_layer * 4;
            let ghost addr = old(pool)@.addr(slot as nat);
            let ghost total = old(pool)@.slot_bytes;
            proof {
                lemma_layers_fit(total, n as nat);
                crate::paged_kv::slots::law_slot_inside_pool(old(pool)@, slot);
            }
            let mut copies: Vec<ChunkCopy> = Vec::new();
            let mut i: usize = 0;
            while i < n
                invariant
                    i <= n,
                    n == recurrent_states@.len(),
                    bytes == layer_state_bytes(total, n as nat),
                    n * bytes <= total,
                    addr + total <= usize::MAX,
                    dst_ptr == addr,
                    copies@.len() == i,
                    forall|k: int|
                        0 <= k < i ==> copies@[k] == save_plan(addr, total, recurrent_states@)[k],
                decreases n - i,
            {
                proof {
                    arith::lemma_scaled_index(i as int, n as int, bytes as int);
                }
                let layer_offset: usize = i * bytes;
                copies.push(
                    ChunkCopy { dst: dst_ptr + layer_offset, src: recurrent_states[i], bytes },
                );
                i += 1;
            }
            assert(copies@ =~= save_plan(addr, total, recurrent_states@));
            Ok((slot, copies))
        },
    }
}

/// Plans the copies that put the states saved in `slot` back.
pub fn restore_checkpoint(
    pool: &RecurrentCheckpointPool,
    slot: u32,
    recurrent_states: &[usize],
) -> (copies: Vec<ChunkCopy>)
    requires
        pool.wf(),
        slot < pool@.capacity,
        recurrent_states@.len() > 0,
    ensures
        copies@ == restore_plan(
            pool@.addr(slot as nat),
            pool@.slot_bytes,
            recurrent_states@,
        ),
{
    let src_ptr: usize = pool.slot_vram_ptr(slot);
    let n: usize = recurrent_states.len();
    let floats_per_layer: usize = pool.state_bytes() / n / 4;
    let bytes: usize = floats_per_layer * 4;
    let ghost addr = pool@.addr(slot as nat);
    let ghost total = pool@.slot_bytes;
    proof {
        lemma_layers_fit(total, n as nat);
        crate::paged_kv::slots::law_slot_inside_pool(pool@, slot);
    }
    let mut copies: Vec<ChunkCopy> = Vec::new();
    let mut i: usize = 0;
    while i < n
        invariant
            i <= n,
            n == recurrent_states@.len(),
            bytes == layer_state_bytes(total, n as nat),
            n * bytes <= total,
            addr + total <= usize::MAX,
            src_ptr == addr,
            copies@.len() == i,
            forall|k: int|
                0 <= k < i ==> copies@[k] == restore_plan(addr, total, recurrent_states@)[k],
        decreases n - i,
    {
        proof {
            arith::lemma_scaled_index(i as int, n as int, bytes as int);
        }
        let layer_offset: usize = i * bytes;
        copies.push(ChunkCopy { dst: recurrent_states[i], src: src_ptr + layer_offset, bytes });
        i += 1;
    }
    assert(copies@ =~= restore_plan(addr, total, recurrent_states@));
    copies
}

/// Restoring a slot reads back exactly what saving into it wrote: the two plans
/// move the same bytes between the same places in opposite directions.
pub proof fn law_restore_undoes_save(slot_addr: nat, state_bytes: nat, states: Seq<usize>, i: int)
    requires
        0 <= i < states.len(),
    ensures
        ({
            let save = save_plan(slot_addr, state_bytes, states)[i];
            let restore = restore_plan(slot_addr, state_bytes, states)[i];
            restore.src == save.dst && restore.dst == save.src && restore.bytes == save.bytes
        }),
{
}

/// The pieces of a checkpoint lie inside its slot and do not overlap.
pub proof fn law_checkpoint_pieces_disjoint(
    slot_addr: nat,
    state_bytes: nat,
    states: Seq<usize>,
    i: int,
    j: int,
)
    requires
        0 <= i < j < states.len(),
        slot_addr + state_bytes <= usize::MAX,
    ensures
        ({
            let a = save_plan(slot_addr, state_bytes, states)[i];
            let b = save_plan(slot_addr, state_bytes, states)[j];
            &&& slot_addr <= a.dst
            &&& a.dst + a.bytes <= b.dst
            &&& b.dst + b.bytes <= slot_addr + state_bytes
        }),
{
    let per = layer_state_bytes(state_bytes, states.len());
    lemma_layers_fit(state_bytes, states.len());
    arith::lemma_scaled_index(i, j, per as int);
    arith::lemma_scaled_index(j, states.len() as int, per as int);
}

} // verus!
