//! Fixed-size slot pools with a last-in first-out free list.
//!
//! A pool manages the slots of one contiguous allocation made elsewhere; it is
//! told the base address and never dereferences it.

use vstd::prelude::*;
use crate::arith;
use crate::config::ModelConfig;
use crate::paged_kv::geometry;
use crate::paged_kv::geometry::{chunk_kv_bytes, quantized_chunk_kv_bytes, recurrent_state_bytes};

verus! {

/// A device ordinal.
#[derive(Clone, Copy, Debug, PartialEq, Eq, Structural)]
pub struct DeviceId(pub u32);

/// Device-side failures the planner itself can report.
#[derive(Clone, Copy, Debug, PartialEq, Eq, Structural)]
pub enum HipError {
    OutOfMemory,
}

/// What a pool is, apart from how it stores it.
#[verifier::ext_equal]
pub struct PoolState {
    /// Address of slot 0.
    pub base: nat,
    /// Number of slots.
    pub capacity: nat,
    /// Bytes per slot.
    pub slot_bytes: nat,
    /// Free slots; the last one is handed out next.
    pub free: Seq<u32>,
}

impl PoolState {
    /// Address of a slot.
    pub open spec fn addr(self, slot: nat) -> nat {
        self.base + slot * self.slot_bytes
    }

    /// Every free slot is a slot of the pool, and the pool is addressable.
    pub open spec fn in_bounds(self) -> bool {
        &&& forall|i: int| 0 <= i < self.free.len() ==> (#[trigger] self.free[i]) < self.capacity
        &&& self.addr(self.capacity) <= usize::MAX
    }

    /// No slot is listed as free twice.
    pub open spec fn no_double(self) -> bool {
        self.free.no_duplicates()
    }

    /// The state after `slot` was returned.
    pub open spec fn freed(self, slot: u32) -> PoolState {
        PoolState { free: self.free.push(slot), ..self }
    }

    /// The state after the next slot was handed out.
    pub open spec fn allocated(self) -> PoolState {
        PoolState { free: self.free.drop_last(), ..self }
    }
}

/// All slots free, slot 0 next.
pub open spec fn fresh_free_list(capacity: nat) -> Seq<u32> {
    Seq::new(capacity, |i: int| (capacity - 1 - i) as u32)
}

/// Free list of an untouched pool.
fn fresh_free_list_exec(capacity: u32) -> (r: Vec<u32>)
    ensures
        r@ == fresh_free_list(capacity as nat),
{
    let mut list: Vec<u32> = Vec::new();
    let mut i: u32 = 0;
    while i < capacity
        invariant
            i <= capacity,
            list@.len() == i,
            forall|j: int| 0 <= j < i ==> list@[j] == (capacity - 1 - j) as u32,
        decreases capacity - i,
    {
        list.push(capacity - 1 - i);
        i += 1;
    }
    assert(list@ =~= fresh_free_list(capacity as nat));
    list
}

proof fn lemma_fresh_free_list(capacity: nat)
    requires
        capacity <= u32::MAX,
    ensures
        fresh_free_list(capacity).no_duplicates(),
        forall|i: int| 0 <= i < capacity ==> (#[trigger] fresh_free_list(capacity)[i]) < capacity,
{
}

/// Whether `slot` is in the list.
fn list_contains(list: &Vec<u32>, slot: u32) -> (r: bool)
    ensures
        r == list@.contains(slot),
{
    let mut i: usize = 0;
    while i < list.len()
        invariant
            i <= list.len(),
            forall|j: int| 0 <= j < i ==> list@[j] != slot,
        decreases list.len() - i,
    {
        if list[i] == slot {
            assert(list@[i as int] == slot);
            return true;
        }
        i += 1;
    }
    false
}

/// Base address plus slot offset.
fn slot_address(base: usize, slot: u32, capacity: u32, slot_bytes: usize) -> (r: usize)
    requires
        slot <= capacity,
        base + capacity as nat * slot_bytes as nat <= usize::MAX,
    ensures
        r == base + slot as nat * slot_bytes as nat,
{
    proof {
        arith::lemma_mul_mono(slot as int, capacity as int, slot_bytes as int);
    }
    base + slot as usize * slot_bytes
}

/// Distinct slots never share a byte.
pub proof fn law_slots_disjoint(pool: PoolState, a: u32, b: u32)
    requires
        a != b,
    ensures
        pool.addr(a as nat) + pool.slot_bytes <= pool.addr(b as nat) || pool.addr(b as nat)
            + pool.slot_bytes <= pool.addr(a as nat),
{
    if a < b {
        arith::lemma_scaled_index(a as int, b as int, pool.slot_bytes as int);
    } else {
        arith::lemma_scaled_index(b as int, a as int, pool.slot_bytes as int);
    }
}

/// Every slot lies inside the pool.
pub proof fn law_slot_inside_pool(pool: PoolState, slot: u32)
    requires
        slot < pool.capacity,
    ensures
        pool.base <= pool.addr(slot as nat),
        pool.addr(slot as nat) + pool.slot_bytes <= pool.addr(pool.capacity),
{
    arith::lemma_scaled_index(slot as int, pool.capacity as int, pool.slot_bytes as int);
}

/// Returning a slot and allocating again hands the same slot out, and puts the
/// pool back where it was.
pub proof fn law_free_alloc_reuses(pool: PoolState, slot: u32)
    ensures
        pool.freed(slot).free.last() == slot,
        pool.freed(slot).allocated() == pool,
{
    assert(pool.free.push(slot).drop_last() =~= pool.free);
}

/// Allocating and returning the slot restores the pool exactly.
pub proof fn law_alloc_free_restores(pool: PoolState)
    requires
        pool.free.len() > 0,
    ensures
        pool.allocated().freed(pool.free.last()) == pool,
{
    assert(pool.free.drop_last().push(pool.free.last()) =~= pool.free);
}

/// A pool without double entries holds at most `capacity` free slots.
pub proof fn law_free_list_bounded(pool: PoolState)
    requires
        pool.in_bounds(),
        pool.no_double(),
    ensures
        pool.free.len() <= pool.capacity,
{
    let as_ints = pool.free.map_values(|s: u32| s as int);
    assert(as_ints.no_duplicates());
    as_ints.unique_seq_to_set();
    let all = vstd::set_lib::set_int_range(0, pool.capacity as int);
    vstd::set_lib::lemma_int_range(0, pool.capacity as int);
    assert(as_ints.to_set().subset_of(all)) by {
        assert forall|x: int| as_ints.to_set().contains(x) implies all.contains(x) by {
            let i = choose|i: int| 0 <= i < as_ints.len() && as_ints[i] == x;
            assert(pool.free[i] < pool.capacity);
        }
    }
    vstd::set_lib::lemma_len_subset(as_ints.to_set(), all);
}

/// Pool of KV chunk slots in device memory. Slots are handed out from a free
/// list, so nothing is allocated on the hot path.
pub struct PageAllocator {
    pool: usize,
    capacity: u32,
    free_list: Vec<u32>,
    device: DeviceId,
    chunk_bytes: usize,
    chunk_tokens: usize,
}

impl View for PageAllocator {
    type V = PoolState;

    closed spec fn view(&self) -> PoolState {
        PoolState {
            base: self.pool as nat,
            capacity: self.capacity as nat,
            slot_bytes: self.chunk_bytes as nat,
            free: self.free_list@,
        }
    }
}

impl PageAllocator {
    pub open spec fn wf(&self) -> bool {
        self@.in_bounds() && self@.no_double() && self@.capacity <= u32::MAX
    }

    pub closed spec fn on_device(&self) -> DeviceId {
        self.device
    }

    pub closed spec fn tokens_per_chunk(&self) -> nat {
        self.chunk_tokens as nat
    }

    /// What no operation changes and the view leaves out: device and chunk size.
    pub open spec fn same_setup(&self, other: &PageAllocator) -> bool {
        &&& self.on_device() == other.on_device()
        &&& self.tokens_per_chunk() == other.tokens_per_chunk()
    }

    /// Bytes to reserve for `max_chunks` slots of `chunk_bytes` each.
    pub fn pool_bytes(max_chunks: u32, chunk_bytes: usize) -> (bytes: usize)
        requires
            max_chunks * chunk_bytes <= usize::MAX,
        ensures
            bytes == max_chunks * chunk_bytes,
    {
        max_chunks as usize * chunk_bytes
    }

    /// Manages `max_chunks` unquantized chunk slots starting at `pool`.
    pub fn new(
        device: DeviceId,
        config: &ModelConfig,
        chunk_tokens: usize,
        max_chunks: u32,
        pool: usize,
    ) -> (r: Self)
        requires
            config.num_kv_heads * config.head_dim <= usize::MAX,
            geometry::chunk_bytes_of(config, chunk_tokens as nat) <= usize::MAX,
            pool + max_chunks as nat * geometry::chunk_bytes_of(config, chunk_tokens as nat)
                <= usize::MAX,
        ensures
            r.wf(),
            r@ == (PoolState {
                base: pool as nat,
                capacity: max_chunks as nat,
                slot_bytes: geometry::chunk_bytes_of(config, chunk_tokens as nat),
                free: fresh_free_list(max_chunks as nat),
            }),
            r.on_device() == device,
            r.tokens_per_chunk() == chunk_tokens,
    {
        let chunk_bytes: usize = chunk_kv_bytes(config, chunk_tokens);
        Self::new_with_chunk_bytes(device, chunk_tokens, max_chunks, chunk_bytes, pool)
    }

    /// Manages `max_chunks` quantized chunk slots starting at `pool`.
    pub fn new_quantized(
        device: DeviceId,
        config: &ModelConfig,
        chunk_tokens: usize,
        max_chunks: u32,
        pool: usize,
    ) -> (r: Self)
        requires
            chunk_tokens == geometry::QUANT_GROUP_TOKENS,
            config.num_kv_heads as nat * chunk_tokens as nat * config.head_dim as nat <= usize::MAX,
            geometry::quant_layer_region(config, chunk_tokens as nat) <= usize::MAX,
            geometry::quant_chunk_bytes_of(config, chunk_tokens as nat) <= usize::MAX,
            pool + max_chunks as nat * geometry::quant_chunk_bytes_of(config, chunk_tokens as nat)
                <= usize::MAX,
        ensures
            r.wf(),
            r@ == (PoolState {
                base: pool as nat,
                capacity: max_chunks as nat,
                slot_bytes: geometry::quant_chunk_bytes_of(config, chunk_tokens as nat),
                free: fresh_free_list(max_chunks as nat),
            }),
            r.on_device() == device,
            r.tokens_per_chunk() == chunk_tokens,
    {
        let chunk_bytes: usize = quantized_chunk_kv_bytes(config, chunk_tokens);
        Self::new_with_chunk_bytes(device, chunk_tokens, max_chunks, chunk_bytes, pool)
    }

    fn new_with_chunk_bytes(
        device: DeviceId,
        chunk_tokens: usize,
        max_chunks: u32,
        chunk_bytes: usize,
        pool: usize,
    ) -> (r: Self)
        requires
            pool + max_chunks as nat * chunk_bytes as nat <= usize::MAX,
        ensures
            r.wf(),
            r@ == (PoolState {
                base: pool as nat,
                capacity: max_chunks as nat,
                slot_bytes: chunk_bytes as nat,
                free: fresh_free_list(max_chunks as nat),
            }),
            r.on_device() == device,
            r.tokens_per_chunk() == chunk_tokens,
    {
        let free_list: Vec<u32> = fresh_free_list_exec(max_chunks);
        proof {
            lemma_fresh_free_list(max_chunks as nat);
        }
        PageAllocator { pool, capacity: max_chunks, free_list, device, chunk_bytes, chunk_tokens }
    }

    /// Hands out one slot and its address, or `None` when the pool is exhausted.
    pub fn alloc_slot(&mut self) -> (r: Option<(u32, usize)>)
        requires
            old(self).wf(),
        ensures
            final(self).wf(),
            final(self).on_device() == old(self).on_device(),
            final(self).tokens_per_chunk() == old(self).tokens_per_chunk(),
            r is None <==> old(self)@.free.len() == 0,
            r is None ==> final(self)@ == old(self)@,
            r matches Some((slot, addr)) ==> {
                &&& slot == old(self)@.free.last()
                &&& slot < old(self)@.capacity
                &&& addr == old(self)@.addr(slot as nat)
                &&& final(self)@ == old(self)@.allocated()
                &&& !final(self)@.free.contains(slot)
            },
    {
        let popped = self.free_list.pop();
        match popped {
            None => {
                assert(self@ =~= old(self)@);
                None
            },
            Some(idx) => {
                let addr: usize = slot_address(self.pool, idx, self.capacity, self.chunk_bytes);
                Some((idx, addr))
            },
        }
    }

    /// Takes a slot back. Only a slot that is out may be returned.
    pub fn free(&mut self, slot: u32)
        requires
            old(self).wf(),
            slot < old(self)@.capacity,
            !old(self)@.free.contains(slot),
        ensures
            final(self).wf(),
            final(self).on_device() == old(self).on_device(),
            final(self).tokens_per_chunk() == old(self).tokens_per_chunk(),
            final(self)@ == old(self)@.freed(slot),
    {
        self.free_list.push(slot);
    }

    /// Whether `slot` is a slot of this pool that is currently out.
    pub fn is_out(&self, slot: u32) -> (r: bool)
        ensures
            r == (slot < self@.capacity && !self@.free.contains(slot)),
    {
        slot < self.capacity && !list_contains(&self.free_list, slot)
    }

    /// Address of `slot`.
    pub fn slot_ptr(&self, slot: u32) -> (addr: usize)
        requires
            self.wf(),
            slot < self@.capacity,
        ensures
            addr == self@.addr(slot as nat),
    {
        slot_address(self.pool, slot, self.capacity, self.chunk_bytes)
    }

    pub fn capacity(&self) -> (r: u32)
        ensures
            r == self@.capacity,
    {
        self.capacity
    }

    pub fn free_count(&self) -> (r: usize)
        ensures
            r == self@.free.len(),
    {
        self.free_list.len()
    }

    pub fn chunk_bytes(&self) -> (r: usize)
        ensures
            r == self@.slot_bytes,
    {
        self.chunk_bytes
    }

    pub fn device(&self) -> (r: DeviceId)
        ensures
            r == self.on_device(),
    {
        self.device
    }
}

/// Pool of KV chunk slots in pinned host memory.
pub struct HostPageAllocator {
    pool: usize,
    capacity: u32,
    free_list: Vec<u32>,
    chunk_bytes: usize,
}

impl View for HostPageAllocator {
    type V = PoolState;

    closed spec fn view(&self) -> PoolState {
        PoolState {
            base: self.pool as nat,
            capacity: self.capacity as nat,
            slot_bytes: self.chunk_bytes as nat,
            free: self.free_list@,
        }
    }
}

impl HostPageAllocator {
    pub open spec fn wf(&self) -> bool {
        self@.in_bounds() && self@.no_double() && self@.capacity <= u32::MAX
    }

    /// Manages `capacity` slots of the pinned allocation at `pool`; without an
    /// allocation there is no host tier.
    pub fn new(chunk_bytes: usize, capacity: u32, pool: Option<usize>) -> (r: Option<Self>)
        requires
            pool matches Some(base) ==> base + capacity as nat * chunk_bytes as nat <= usize::MAX,
        ensures
            r is Some <==> pool is Some,
            r matches Some(a) ==> a.wf() && a@ == (PoolState {
                base: pool->0 as nat,
                capacity: capacity as nat,
                slot_bytes: chunk_bytes as nat,
                free: fresh_free_list(capacity as nat),
            }),
    {
        match pool {
            None => None,
            Some(base) => {
                let free_list: Vec<u32> = fresh_free_list_exec(capacity);
                proof {
                    lemma_fresh_free_list(capacity as nat);
                }
                Some(HostPageAllocator { pool: base, capacity, free_list, chunk_bytes })
            },
        }
    }

    /// Hands out one slot and its address, or `None` when the pool is exhausted.
    pub fn alloc_slot(&mut self) -> (r: Option<(u32, usize)>)
        requires
            old(self).wf(),
        ensures
            final(self).wf(),
            r is None <==> old(self)@.free.len() == 0,
            r is None ==> final(self)@ == old(self)@,
            r matches Some((slot, addr)) ==> {
                &&& slot == old(self)@.free.last()
                &&& slot < old(self)@.capacity
                &&& addr == old(self)@.addr(slot as nat)
                &&& final(self)@ == old(self)@.allocated()
                &&& !final(self)@.free.contains(slot)
            },
    {
        let popped = self.free_list.pop();
        match popped {
            None => {
                assert(self@ =~= old(self)@);
                None
            },
            Some(idx) => {
                let addr: usize = slot_address(self.pool, idx, self.capacity, self.chunk_bytes);
                Some((idx, addr))
            },
        }
    }

    /// Takes a slot back. Only a slot that is out may be returned.
    pub fn free(&mut self, slot: u32)
        requires
            old(self).wf(),
            slot < old(self)@.capacity,
            !old(self)@.free.contains(slot),
        ensures
            final(self).wf(),
            final(self)@ == old(self)@.freed(slot),
    {
        self.free_list.push(slot);
    }

    /// Whether `slot` is a slot of this pool that is currently out.
    pub fn is_out(&self, slot: u32) -> (r: bool)
        ensures
            r == (slot < self@.capacity && !self@.free.contains(slot)),
    {
        slot < self.capacity && !list_contains(&self.free_list, slot)
    }

    /// Address of `slot`.
    pub fn slot_ptr(&self, slot: u32) -> (addr: usize)
        requires
            self.wf(),
            slot < self@.capacity,
        ensures
            addr == self@.addr(slot as nat),
    {
        slot_address(self.pool, slot, self.capacity, self.chunk_bytes)
    }

    pub fn capacity(&self) -> (r: u32)
        ensures
            r == self@.capacity,
    {
        self.capacity
    }

    pub fn free_count(&self) -> (r: usize)
        ensures
            r == self@.free.len(),
    {
        self.free_list.len()
    }

    pub fn chunk_bytes(&self) -> (r: usize)
        ensures
            r == self@.slot_bytes,
    {
        self.chunk_bytes
    }
}

/// Pool of recurrent-state checkpoint slots: device memory, with a pinned host
/// mirror of the same shape.
pub struct RecurrentCheckpointPool {
    vram_pool: usize,
    cpu_pool: usize,
    free_list: Vec<u32>,
    capacity: u32,
    state_bytes: usize,
}

impl View for RecurrentCheckpointPool {
    type V = PoolState;

    closed spec fn view(&self) -> PoolState {
        PoolState {
            base: self.vram_pool as nat,
            capacity: self.capacity as nat,
            slot_bytes: self.state_bytes as nat,
            free: self.free_list@,
        }
    }
}

impl RecurrentCheckpointPool {
    pub closed spec fn cpu_base(&self) -> nat {
        self.cpu_pool as nat
    }

    /// Free slots are slots of the pool and both copies are addressable. Unlike
    /// the KV pools this one does not look for double frees.
    pub open spec fn wf(&self) -> bool {
        &&& self@.in_bounds()
        &&& self@.capacity <= u32::MAX
        &&& self.cpu_base() + self@.capacity * self@.slot_bytes <= usize::MAX
    }

    /// Manages `capacity` checkpoint slots.
    pub fn new(config: &ModelConfig, capacity: u32, vram_pool: usize, cpu_pool: usize) -> (r: Self)
        requires
            config.linear_num_heads as nat * config.linear_key_head_dim as nat
                * config.linear_value_head_dim as nat <= usize::MAX,
            geometry::recurrent_bytes_of(config) <= usize::MAX,
            vram_pool + capacity as nat * geometry::recurrent_bytes_of(config) <= usize::MAX,
            cpu_pool + capacity as nat * geometry::recurrent_bytes_of(config) <= usize::MAX,
        ensures
            r.wf(),
            r@.no_double(),
            r.cpu_base() == cpu_pool,
            r@ == (PoolState {
                base: vram_pool as nat,
                capacity: capacity as nat,
                slot_bytes: geometry::recurrent_bytes_of(config),
                free: fresh_free_list(capacity as nat),
            }),
    {
        let state_bytes: usize = recurrent_state_bytes(config);
        let free_list: Vec<u32> = fresh_free_list_exec(capacity);
        proof {
            lemma_fresh_free_list(capacity as nat);
        }
        RecurrentCheckpointPool { vram_pool, cpu_pool, free_list, capacity, state_bytes }
    }

    /// Hands out one slot and its device address, or `None` when none is free.
    pub fn alloc_slot(&mut self) -> (r: Option<(u32, usize)>)
        requires
            old(self).wf(),
        ensures
            final(self).wf(),
            final(self).cpu_base() == old(self).cpu_base(),
            old(self)@.no_double() ==> final(self)@.no_double(),
            r is None <==> old(self)@.free.len() == 0,
            r is None ==> final(self)@ == old(self)@,
            r matches Some((slot, addr)) ==> {
                &&& slot == old(self)@.free.last()
                &&& slot < old(self)@.capacity
                &&& addr == old(self)@.addr(slot as nat)
                &&& final(self)@ == old(self)@.allocated()
            },
    {
        assert(forall|i: int| #![trigger self.free_list@[i]] 0 <= i < self.free_list@.len()
            ==> self@.free[i] < self.capacity);
        let popped = self.free_list.pop();
        match popped {
            None => {
                assert(self@ =~= old(self)@);
                None
            },
            Some(idx) => {
                let addr: usize = slot_address(
                    self.vram_pool,
                    idx,
                    self.capacity,
                    self.state_bytes,
                );
                Some((idx, addr))
            },
        }
    }

    /// Takes a slot back.
    pub fn free(&mut self, slot: u32)
        requires
            old(self).wf(),
            slot < old(self)@.capacity,
        ensures
            final(self).wf(),
            final(self).cpu_base() == old(self).cpu_base(),
            final(self)@ == old(self)@.freed(slot),
            old(self)@.no_double() && !old(self)@.free.contains(slot) ==> final(self)@.no_double(),
    {
        assert(forall|i: int| #![trigger self.free_list@[i]] 0 <= i < self.free_list@.len()
            ==> self@.free[i] < self.capacity);
        self.free_list.push(slot);
    }

    /// Device address of `slot`.
    pub fn slot_vram_ptr(&self, slot: u32) -> (addr: usize)
        requires
            self.wf(),
            slot < self@.capacity,
        ensures
            addr == self@.addr(slot as nat),
    {
        slot_address(self.vram_pool, slot, self.capacity, self.state_bytes)
    }

    /// Pinned host address of `slot`.
    pub fn slot_cpu_ptr(&self, slot: u32) -> (addr: usize)
        requires
            self.wf(),
            slot < self@.capacity,
        ensures
            addr == self.cpu_base() + slot as nat * self@.slot_bytes,
    {
        slot_address(self.cpu_pool, slot, self.capacity, self.state_bytes)
    }

    pub fn state_bytes(&self) -> (r: usize)
        ensures
            r == self@.slot_bytes,
    {
        self.state_bytes
    }

    pub fn capacity(&self) -> (r: u32)
        ensures
            r == self@.capacity,
    {
        self.capacity
    }
}

} // verus!
