//! Shared, reference-counted chunk metadata.
//!
//! Chunk records live in a `ChunkTable`; a `ChunkHandle` names one of them. All
//! handles that name the same record see the same length, tier and generation.
//! The data itself stays in the slot pools.

use vstd::prelude::*;
use crate::paged_kv::slots::{HipError, HostPageAllocator, PageAllocator};

verus! {

/// Which memory pool a chunk's data lives in.
#[derive(Clone, Copy, Debug, PartialEq, Eq, Structural)]
pub enum ChunkTier {
    /// A slot of the device pool.
    Vram,
    /// A slot of the pinned host pool.
    HostPinned,
}

impl ChunkTier {
    /// The stored discriminant: 0 for device memory, 1 for pinned host memory.
    pub open spec fn discriminant(self) -> u8 {
        match self {
            ChunkTier::Vram => 0,
            ChunkTier::HostPinned => 1,
        }
    }

    pub fn as_u8(self) -> (r: u8)
        ensures
            r == self.discriminant(),
    {
        match self {
            ChunkTier::Vram => 0,
            ChunkTier::HostPinned => 1,
        }
    }

    /// Reads a stored discriminant back.
    pub fn from_u8(v: u8) -> (r: Self)
        requires
            v <= 1,
        ensures
            r.discriminant() == v,
    {
        if v == 0 {
            ChunkTier::Vram
        } else {
            ChunkTier::HostPinned
        }
    }
}

/// The discriminant determines the tier.
pub proof fn law_tier_round_trip(a: ChunkTier, b: ChunkTier)
    ensures
        a.discriminant() <= 1,
        a.discriminant() == b.discriminant() <==> a == b,
{
}

/// Metadata of one KV chunk slot.
#[derive(Clone, Copy, Debug, PartialEq, Eq, Structural)]
pub struct ChunkRef {
    /// Slot in the pool that the tier selects.
    pub slot_index: u32,
    /// Tokens written into the chunk.
    pub len: u32,
    /// Content hash of a sealed chunk.
    pub content_hash: Option<u64>,
    /// Stored tier, see `ChunkTier::discriminant`.
    pub tier_discriminant: u8,
    /// Usage counter; larger means used more recently.
    pub generation: u64,
}

impl ChunkRef {
    /// A chunk nobody has written to, in device slot `slot`.
    pub open spec fn fresh(slot: u32) -> ChunkRef {
        ChunkRef { slot_index: slot, len: 0, content_hash: None, tier_discriminant: 0, generation: 0 }
    }
}

/// A chunk record and the number of handles that name it.
#[derive(Clone, Copy, Debug, PartialEq, Eq, Structural)]
pub struct SharedChunk {
    pub chunk: ChunkRef,
    pub refs: usize,
}

/// All live chunk records.
pub struct ChunkTable {
    records: Vec<Option<SharedChunk>>,
    vacant: Vec<usize>,
}

/// Names one record of a `ChunkTable`. Copies are made with `share` and given up
/// with `release`, which keep the record's count.
pub struct ChunkHandle {
    pub inner: usize,
}

impl View for ChunkTable {
    type V = Map<usize, SharedChunk>;

    closed spec fn view(&self) -> Map<usize, SharedChunk> {
        Map::new(
            |i: usize| i < self.records@.len() && self.records@[i as int] is Some,
            |i: usize| self.records@[i as int]->0,
        )
    }
}

impl ChunkTable {
    /// The vacancy list names exactly the empty records, each once; a live record
    /// has at least one handle and a valid tier.
    pub closed spec fn wf(&self) -> bool {
        &&& self.vacant@.no_duplicates()
        &&& forall|k: int|
            0 <= k < self.vacant@.len() ==> (#[trigger] self.vacant@[k]) < self.records@.len()
                && self.records@[self.vacant@[k] as int] is None
        &&& forall|i: int|
            #![trigger self.records@[i]]
            0 <= i < self.records@.len() && self.records@[i] is None ==> self.vacant@.contains(
                i as usize,
            )
        &&& forall|i: int|
            #![trigger self.records@[i]]
            0 <= i < self.records@.len() ==> (self.records@[i] matches Some(e) ==> e.refs >= 1
                && e.chunk.tier_discriminant <= 1)
    }

    /// A table without chunks.
    pub fn new() -> (r: Self)
        ensures
            r.wf(),
            r@ == Map::<usize, SharedChunk>::empty(),
    {
        let r = ChunkTable { records: Vec::new(), vacant: Vec::new() };
        assert(r@ =~= Map::<usize, SharedChunk>::empty());
        r
    }

    /// Adds a record with one handle and returns its index.
    fn add_record(&mut self, chunk: ChunkRef) -> (id: usize)
        requires
            old(self).wf(),
            chunk.tier_discriminant <= 1,
        ensures
            final(self).wf(),
            !old(self)@.dom().contains(id),
            final(self)@ == old(self)@.insert(id, SharedChunk { chunk, refs: 1 }),
    {
        let popped = self.vacant.pop();
        match popped {
            Some(id) => {
                let ghost before = self.records@;
                self.records.set(id, Some(SharedChunk { chunk, refs: 1 }));
                proof {
                    assert(self.vacant@ == old(self).vacant@.drop_last());
                    assert forall|k: int| 0 <= k < self.vacant@.len() implies (
                    #[trigger] self.vacant@[k]) < self.records@.len()
                        && self.records@[self.vacant@[k] as int] is None by {
                        assert(old(self).vacant@[k] == self.vacant@[k]);
                        assert(old(self).vacant@[k] != old(self).vacant@.last());
                        assert(before[self.vacant@[k] as int] is None);
                    }
                    assert(self.vacant@.no_duplicates());
                    assert forall|i: int|
                        #![trigger self.records@[i]]
                        0 <= i < self.records@.len() implies (self.records@[i] matches Some(e)
                        ==> e.refs >= 1 && e.chunk.tier_discriminant <= 1) by {
                        assert(i != id ==> self.records@[i] == before[i]);
                    }
                    assert forall|i: int|
                        #![trigger self.records@[i]]
                        0 <= i < self.records@.len() && self.records@[i] is None implies self.vacant@.contains(
                        i as usize,
                    ) by {
                        assert(before[i] is None);
                        let k = choose|k: int|
                            0 <= k < old(self).vacant@.len() && old(self).vacant@[k] == i as usize;
                        assert(self.vacant@[k] == i as usize);
                    }
                    assert(self@ =~= old(self)@.insert(id, SharedChunk { chunk, refs: 1 }));
                }
                id
            },
            None => {
                let id: usize = self.records.len();
                self.records.push(Some(SharedChunk { chunk, refs: 1 }));
                proof {
                    assert forall|i: int|
                        #![trigger self.records@[i]]
                        0 <= i < self.records@.len() && self.records@[i] is None implies self.vacant@.contains(
                        i as usize,
                    ) by {
                        assert(old(self).records@[i] is None);
                    }
                    assert(self@ =~= old(self)@.insert(id, SharedChunk { chunk, refs: 1 }));
                }
                id
            },
        }
    }

    /// Reads a live record.
    fn record(&self, id: usize) -> (r: SharedChunk)
        requires
            self.wf(),
            self@.dom().contains(id),
        ensures
            r == self@[id],
            r.refs >= 1,
            r.chunk.tier_discriminant <= 1,
    {
        assert(self.records@[id as int] is Some);
        match self.records[id] {
            Some(e) => e,
            None => SharedChunk {
                chunk: ChunkRef {
                    slot_index: 0,
                    len: 0,
                    content_hash: None,
                    tier_discriminant: 0,
                    generation: 0,
                },
                refs: 0,
            },
        }
    }

    /// Overwrites a live record.
    fn put_record(&mut self, id: usize, e: SharedChunk)
        requires
            old(self).wf(),
            old(self)@.dom().contains(id),
            e.refs >= 1,
            e.chunk.tier_discriminant <= 1,
        ensures
            final(self).wf(),
            final(self)@ == old(self)@.insert(id, e),
    {
        assert(self.records@[id as int] is Some);
        self.records.set(id, Some(e));
        proof {
            assert forall|k: int| 0 <= k < self.vacant@.len() implies (#[trigger] self.vacant@[k])
                < self.records@.len() && self.records@[self.vacant@[k] as int] is None by {
                assert(old(self).records@[self.vacant@[k] as int] is None);
            }
            assert forall|i: int|
                #![trigger self.records@[i]]
                0 <= i < self.records@.len() && self.records@[i] is None implies self.vacant@.contains(
                i as usize,
            ) by {
                assert(old(self).records@[i] is None);
            }
            assert(self@ =~= old(self)@.insert(id, e));
        }
    }

    /// Gives up one handle of a record; the last one takes the record with it.
    pub(crate) fn drop_ref(&mut self, id: usize)
        requires
            old(self).wf(),
            old(self)@.dom().contains(id),
        ensures
            final(self).wf(),
            final(self)@ == released(old(self)@, id),
    {
        let e: SharedChunk = self.record(id);
        if e.refs == 1 {
            assert(self.records@[id as int] is Some);
            assert(!self.vacant@.contains(id));
            self.records.set(id, None);
            self.vacant.push(id);
            proof {
                assert(self.vacant@.drop_last() =~= old(self).vacant@);
                assert forall|k: int| 0 <= k < self.vacant@.len() implies (
                #[trigger] self.vacant@[k]) < self.records@.len()
                    && self.records@[self.vacant@[k] as int] is None by {
                    if k < old(self).vacant@.len() {
                        assert(old(self).vacant@[k] == self.vacant@[k]);
                        assert(old(self).records@[old(self).vacant@[k] as int] is None);
                    }
                }
                assert forall|i: int|
                    #![trigger self.records@[i]]
                    0 <= i < self.records@.len() && self.records@[i] is None implies self.vacant@.contains(
                    i as usize,
                ) by {
                    if i == id {
                        assert(self.vacant@[self.vacant@.len() - 1] == id);
                    } else {
                        assert(old(self).records@[i] is None);
                        let k = choose|k: int|
                            0 <= k < old(self).vacant@.len() && old(self).vacant@[k] == i as usize;
                        assert(self.vacant@[k] == i as usize);
                    }
                }
                assert(self@ =~= old(self)@.remove(id));
            }
        } else {
            self.put_record(id, SharedChunk { refs: e.refs - 1, ..e });
        }
    }
}

/// The records after one handle of `id` was given up.
pub open spec fn released(t: Map<usize, SharedChunk>, id: usize) -> Map<usize, SharedChunk> {
    if t[id].refs == 1 {
        t.remove(id)
    } else {
        t.insert(id, SharedChunk { refs: (t[id].refs - 1) as usize, ..t[id] })
    }
}

/// The records after one more handle of `id` was made.
pub open spec fn shared(t: Map<usize, SharedChunk>, id: usize) -> Map<usize, SharedChunk> {
    t.insert(id, SharedChunk { refs: (t[id].refs + 1) as usize, ..t[id] })
}

/// The records after the chunk data of `id` became `chunk`.
pub open spec fn with_chunk(
    t: Map<usize, SharedChunk>,
    id: usize,
    chunk: ChunkRef,
) -> Map<usize, SharedChunk> {
    t.insert(id, SharedChunk { chunk, ..t[id] })
}

/// A device-to-device copy the caller has to issue.
#[derive(Clone, Copy, Debug, PartialEq, Eq, Structural)]
pub struct ChunkCopy {
    pub dst: usize,
    pub src: usize,
    pub bytes: usize,
}

impl ChunkHandle {
    /// Whether the handle names a record of `t`.
    pub open spec fn live(&self, t: &ChunkTable) -> bool {
        t.wf() && t@.dom().contains(self.inner)
    }

    pub open spec fn chunk(&self, t: &ChunkTable) -> ChunkRef {
        t@[self.inner].chunk
    }

    pub open spec fn refs(&self, t: &ChunkTable) -> usize {
        t@[self.inner].refs
    }

    /// Wraps a freshly allocated device slot.
    pub fn new(table: &mut ChunkTable, slot_index: u32) -> (r: Self)
        requires
            old(table).wf(),
        ensures
            r.live(final(table)),
            !old(table)@.dom().contains(r.inner),
            final(table)@ == old(table)@.insert(
                r.inner,
                SharedChunk { chunk: ChunkRef::fresh(slot_index), refs: 1 },
            ),
    {
        let inner: usize = table.add_record(
            ChunkRef {
                slot_index,
                len: 0,
                content_hash: None,
                tier_discriminant: 0,
                generation: 0,
            },
        );
        ChunkHandle { inner }
    }

    /// Another handle to the same chunk.
    pub fn share(&self, table: &mut ChunkTable) -> (r: Self)
        requires
            self.live(old(table)),
            self.refs(old(table)) < usize::MAX,
        ensures
            r.inner == self.inner,
            r.live(final(table)),
            final(table)@ == shared(old(table)@, self.inner),
    {
        let e: SharedChunk = table.record(self.inner);
        table.put_record(self.inner, SharedChunk { refs: e.refs + 1, ..e });
        ChunkHandle { inner: self.inner }
    }

    /// Gives the handle up.
    pub fn release(self, table: &mut ChunkTable)
        requires
            self.live(old(table)),
        ensures
            final(table).wf(),
            final(table)@ == released(old(table)@, self.inner),
    {
        table.drop_ref(self.inner);
    }

    /// How many handles name this chunk.
    pub fn strong_count(&self, table: &ChunkTable) -> (r: usize)
        requires
            self.live(table),
        ensures
            r == self.refs(table),
            r >= 1,
    {
        table.record(self.inner).refs
    }

    /// A handle whose chunk can be written without disturbing another owner.
    ///
    /// A sole owner gets a further handle to its own chunk. Otherwise a new slot
    /// is taken and, when the chunk holds tokens, the whole slot has to be copied:
    /// valid tokens are spread over every head's slice. An empty chunk needs no copy.
    pub fn make_exclusive(&self, table: &mut ChunkTable, allocator: &mut PageAllocator) -> (r: Result<
        (ChunkHandle, Option<ChunkCopy>),
        HipError,
    >)
        requires
            self.live(old(table)),
            old(allocator).wf(),
            self.refs(old(table)) > 1 ==> self.chunk(old(table)).slot_index < old(allocator)@.capacity,
        ensures
            final(table).wf(),
            final(allocator).wf(),
            final(allocator).same_setup(old(allocator)),
            r is Err <==> self.refs(old(table)) > 1 && old(allocator)@.free.len() == 0,
            r is Err ==> r->Err_0 == HipError::OutOfMemory && final(table)@ == old(table)@ && final(allocator)@ == old(allocator)@,
            r matches Ok((h, copy)) ==> {
                &&& h.live(final(table))
                &&& self.refs(old(table)) == 1 ==> {
                    &&& h.inner == self.inner
                    &&& copy is None
                    &&& final(table)@ == shared(old(table)@, self.inner)
                    &&& final(allocator)@ == old(allocator)@
                }
                &&& self.refs(old(table)) > 1 ==> {
                    let slot = old(allocator)@.free.last();
                    let old_chunk = self.chunk(old(table));
                    &&& !old(table)@.dom().contains(h.inner)
                    &&& final(table)@ == old(table)@.insert(
                        h.inner,
                        SharedChunk {
                            chunk: ChunkRef { len: old_chunk.len, ..ChunkRef::fresh(slot) },
                            refs: 1,
                        },
                    )
                    &&& final(allocator)@ == old(allocator)@.allocated()
                    &&& copy is Some <==> old_chunk.len > 0 && old(allocator)@.slot_bytes > 0
                    &&& copy matches Some(c) ==> {
                        &&& c.dst == old(allocator)@.addr(slot as nat)
                        &&& c.src == old(allocator)@.addr(old_chunk.slot_index as nat)
                        &&& c.bytes == old(allocator)@.slot_bytes
                    }
                }
            },
    {
        let e: SharedChunk = table.record(self.inner);
        if e.refs == 1 {
            let h = self.share(table);
            return Ok((h, None));
        }
        match allocator.alloc_slot() {
            None => Err(HipError::OutOfMemory),
            Some((new_slot, new_ptr)) => {
                let old_ptr: usize = allocator.slot_ptr(e.chunk.slot_index);
                let len: u32 = e.chunk.len;
                let copy_bytes: usize = if len == 0 {
                    0
                } else {
                    allocator.chunk_bytes()
                };
                let copy = if copy_bytes > 0 {
                    Some(ChunkCopy { dst: new_ptr, src: old_ptr, bytes: copy_bytes })
                } else {
                    None
                };
                let inner: usize = table.add_record(
                    ChunkRef {
                        slot_index: new_slot,
                        len,
                        content_hash: None,
                        tier_discriminant: 0,
                        generation: 0,
                    },
                );
                Ok((ChunkHandle { inner }, copy))
            },
        }
    }

    pub fn slot_index(&self, table: &ChunkTable) -> (r: u32)
        requires
            self.live(table),
        ensures
            r == self.chunk(table).slot_index,
    {
        table.record(self.inner).chunk.slot_index
    }

    pub fn len(&self, table: &ChunkTable) -> (r: u32)
        requires
            self.live(table),
        ensures
            r == self.chunk(table).len,
    {
        table.record(self.inner).chunk.len
    }

    /// Counts one more token; the counter wraps.
    pub fn increment_len(&self, table: &mut ChunkTable)
        requires
            self.live(old(table)),
        ensures
            final(table).wf(),
            final(table)@ == with_chunk(
                old(table)@,
                self.inner,
                ChunkRef {
                    len: self.chunk(old(table)).len.wrapping_add(1),
                    ..self.chunk(old(table))
                },
            ),
    {
        let e: SharedChunk = table.record(self.inner);
        let len: u32 = e.chunk.len.wrapping_add(1);
        table.put_record(self.inner, SharedChunk { chunk: ChunkRef { len, ..e.chunk }, ..e });
    }

    /// Current tier.
    pub fn tier(&self, table: &ChunkTable) -> (r: ChunkTier)
        requires
            self.live(table),
        ensures
            r.discriminant() == self.chunk(table).tier_discriminant,
    {
        ChunkTier::from_u8(table.record(self.inner).chunk.tier_discriminant)
    }

    /// Moves the chunk to another tier, for every handle that names it.
    pub fn set_tier(&self, table: &mut ChunkTable, tier: ChunkTier)
        requires
            self.live(old(table)),
        ensures
            final(table).wf(),
            final(table)@ == with_chunk(
                old(table)@,
                self.inner,
                ChunkRef { tier_discriminant: tier.discriminant(), ..self.chunk(old(table)) },
            ),
    {
        let e: SharedChunk = table.record(self.inner);
        let tier_discriminant: u8 = tier.as_u8();
        table.put_record(
            self.inner,
            SharedChunk { chunk: ChunkRef { tier_discriminant, ..e.chunk }, ..e },
        );
    }

    /// Device address of the chunk; `None` unless it is in device memory.
    pub fn vram_ptr(&self, table: &ChunkTable, vram_alloc: &PageAllocator) -> (r: Option<usize>)
        requires
            self.live(table),
            vram_alloc.wf(),
            self.chunk(table).tier_discriminant == ChunkTier::Vram.discriminant() ==> self.chunk(
                table,
            ).slot_index < vram_alloc@.capacity,
        ensures
            r is Some <==> self.chunk(table).tier_discriminant == ChunkTier::Vram.discriminant(),
            r matches Some(addr) ==> addr == vram_alloc@.addr(self.chunk(table).slot_index as nat),
    {
        if self.tier(table) == ChunkTier::Vram {
            Some(vram_alloc.slot_ptr(self.slot_index(table)))
        } else {
            None
        }
    }

    /// Pinned host address of a chunk that was moved to host memory.
    pub fn host_ptr(&self, table: &ChunkTable, host_alloc: &HostPageAllocator) -> (addr: usize)
        requires
            self.live(table),
            host_alloc.wf(),
            self.chunk(table).tier_discriminant == ChunkTier::HostPinned.discriminant(),
            self.chunk(table).slot_index < host_alloc@.capacity,
        ensures
            addr == host_alloc@.addr(self.chunk(table).slot_index as nat),
    {
        host_alloc.slot_ptr(self.slot_index(table))
    }

    /// Current usage counter.
    pub fn generation(&self, table: &ChunkTable) -> (r: u64)
        requires
            self.live(table),
        ensures
            r == self.chunk(table).generation,
    {
        table.record(self.inner).chunk.generation
    }

    /// Advances the usage counter, which wraps, and returns its old value.
    pub fn bump_generation(&self, table: &mut ChunkTable) -> (r: u64)
        requires
            self.live(old(table)),
        ensures
            final(table).wf(),
            r == self.chunk(old(table)).generation,
            final(table)@ == with_chunk(
                old(table)@,
                self.inner,
                ChunkRef { generation: r.wrapping_add(1), ..self.chunk(old(table)) },
            ),
    {
        let e: SharedChunk = table.record(self.inner);
        let generation: u64 = e.chunk.generation.wrapping_add(1);
        table.put_record(self.inner, SharedChunk { chunk: ChunkRef { generation, ..e.chunk }, ..e });
        e.chunk.generation
    }
}

/// Takes a device slot together with a host slot that backs it. When the host
/// pool is exhausted the device slot is returned, so neither pool changes.
pub fn alloc_with_host_backing(
    table: &mut ChunkTable,
    vram_alloc: &mut PageAllocator,
    host_alloc: &mut HostPageAllocator,
) -> (r: Result<(ChunkHandle, u32), HipError>)
    requires
        old(table).wf(),
        old(vram_alloc).wf(),
        old(host_alloc).wf(),
    ensures
        final(table).wf(),
        final(vram_alloc).wf(),
        final(vram_alloc).same_setup(old(vram_alloc)),
        final(host_alloc).wf(),
        r is Err <==> old(vram_alloc)@.free.len() == 0 || old(host_alloc)@.free.len() == 0,
        r is Err ==> {
            &&& r->Err_0 == HipError::OutOfMemory
            &&& final(table)@ == old(table)@
            &&& final(vram_alloc)@ == old(vram_alloc)@
            &&& final(host_alloc)@ == old(host_alloc)@
        },
        r matches Ok((h, host_slot)) ==> {
            &&& h.live(final(table))
            &&& !old(table)@.dom().contains(h.inner)
            &&& final(table)@ == old(table)@.insert(
                h.inner,
                SharedChunk { chunk: ChunkRef::fresh(old(vram_alloc)@.free.last()), refs: 1 },
            )
            &&& host_slot == old(host_alloc)@.free.last()
            &&& final(vram_alloc)@ == old(vram_alloc)@.allocated()
            &&& final(host_alloc)@ == old(host_alloc)@.allocated()
        },
{
    match vram_alloc.alloc_slot() {
        None => Err(HipError::OutOfMemory),
        Some((vram_slot, _)) => match host_alloc.alloc_slot() {
            Some((host_slot, _)) => {
                let h = ChunkHandle::new(table, vram_slot);
                Ok((h, host_slot))
            },
            None => {
                vram_alloc.free(vram_slot);
                proof {
                    crate::paged_kv::slots::law_alloc_free_restores(old(vram_alloc)@);
                }
                Err(HipError::OutOfMemory)
            },
        },
    }
}

/// Sharing a chunk and giving the copy up leaves every record as it was.
pub proof fn law_share_release_restores(t: Map<usize, SharedChunk>, id: usize)
    requires
        t.dom().contains(id),
        1 <= t[id].refs < usize::MAX,
    ensures
        released(shared(t, id), id) == t,
{
    assert(released(shared(t, id), id) =~= t);
}

/// What one handle does to a chunk every other handle of that chunk sees, and no
/// other chunk changes.
pub proof fn law_updates_shared_across_handles(
    t: Map<usize, SharedChunk>,
    id: usize,
    chunk: ChunkRef,
    a: ChunkHandle,
    other: usize,
)
    requires
        t.dom().contains(id),
        a.inner == id,
        other != id,
    ensures
        with_chunk(t, id, chunk)[a.inner].chunk == chunk,
        with_chunk(t, id, chunk)[a.inner].refs == t[id].refs,
        with_chunk(t, id, chunk).dom().contains(other) <==> t.dom().contains(other),
        t.dom().contains(other) ==> with_chunk(t, id, chunk)[other] == t[other],
{
}

/// Short of wrapping, a bump makes the generation strictly larger.
pub proof fn law_generation_monotonic(generation: u64)
    requires
        generation < u64::MAX,
    ensures
        generation.wrapping_add(1) > generation,
{
}

} // verus!
