//! The chunk list of one sequence.

use vstd::prelude::*;
use crate::config::ModelConfig;
use crate::paged_kv::chunk;
use crate::paged_kv::chunk::{ChunkHandle, ChunkRef, ChunkTable, SharedChunk};
use crate::paged_kv::geometry;
use crate::paged_kv::geometry::chunk_kv_bytes;
use crate::paged_kv::slots::{HipError, PageAllocator, PoolState};

verus! {

/// KV bookkeeping of one sequence: an ordered list of chunk handles.
pub struct SequenceState {
    /// Chunks in sequence order.
    pub chunks: Vec<ChunkHandle>,
    /// Tokens in the sequence.
    pub seq_len: u32,
    /// Logical position of each token, in sequence order.
    pub positions: Vec<i32>,
    /// Bumped on every structural change.
    pub kv_version: u32,
    /// Tokens per chunk, fixed at construction.
    pub chunk_tokens: u32,
    /// Address of the staging buffer for the incomplete chunk (quantized mode only).
    pub staging_buffer: Option<usize>,
    /// Quantized slots, parallel to `chunks`.
    pub quant_slots: Vec<u32>,
}

/// The records and the free list while handles are being given up in order: a
/// chunk nobody else holds returns its slot.
pub open spec fn reset_step(
    t: Map<usize, SharedChunk>,
    free: Seq<u32>,
    h: ChunkHandle,
) -> (Map<usize, SharedChunk>, Seq<u32>) {
    (
        chunk::released(t, h.inner),
        if t[h.inner].refs == 1 {
            free.push(t[h.inner].chunk.slot_index)
        } else {
            free
        },
    )
}

/// Records and free list after all of `chunks` were given up, first to last.
pub open spec fn reset_all(
    t: Map<usize, SharedChunk>,
    free: Seq<u32>,
    chunks: Seq<ChunkHandle>,
) -> (Map<usize, SharedChunk>, Seq<u32>)
    decreases chunks.len(),
{
    if chunks.len() == 0 {
        (t, free)
    } else {
        let (t1, f1) = reset_all(t, free, chunks.drop_last());
        reset_step(t1, f1, chunks.last())
    }
}

/// Whether giving up `chunks` in order meets only live records, and returns only
/// slots of the pool that are out.
pub open spec fn reset_ok(
    t: Map<usize, SharedChunk>,
    free: Seq<u32>,
    capacity: nat,
    chunks: Seq<ChunkHandle>,
) -> bool
    decreases chunks.len(),
{
    chunks.len() > 0 ==> {
        let (t1, f1) = reset_all(t, free, chunks.drop_last());
        let h = chunks.last();
        &&& reset_ok(t, free, capacity, chunks.drop_last())
        &&& t1.dom().contains(h.inner)
        &&& t1[h.inner].refs == 1 ==> {
            &&& t1[h.inner].chunk.slot_index < capacity
            &&& !f1.contains(t1[h.inner].chunk.slot_index)
        }
    }
}

/// Tokens recorded in the first `n` chunks.
pub open spec fn tokens_in(t: Map<usize, SharedChunk>, chunks: Seq<ChunkHandle>) -> nat
    decreases chunks.len(),
{
    if chunks.len() == 0 {
        0
    } else {
        tokens_in(t, chunks.drop_last()) + t[chunks.last().inner].chunk.len as nat
    }
}

/// All chunks of a sequence are slots of the pool.
pub open spec fn in_pool(seq: &SequenceState, t: &ChunkTable, pool: PoolState) -> bool {
    forall|i: int|
        0 <= i < seq.chunks@.len() ==> (#[trigger] seq.chunks@[i]).chunk(t).slot_index
            < pool.capacity
}

/// The sequence alone holds its chunks, and each has a slot of its own that is out
/// of the pool.
pub open spec fn owns(seq: &SequenceState, t: &ChunkTable, pool: PoolState) -> bool {
    &&& in_pool(seq, t, pool)
    &&& forall|i: int|
        0 <= i < seq.chunks@.len() ==> (#[trigger] seq.chunks@[i]).refs(t) == 1
            && !pool.free.contains(seq.chunks@[i].chunk(t).slot_index)
    &&& forall|i: int, j: int|
        0 <= i < j < seq.chunks@.len() ==> (#[trigger] seq.chunks@[i]).chunk(t).slot_index != (
        #[trigger] seq.chunks@[j]).chunk(t).slot_index
}

/// A record with nothing changed but the number of tokens.
pub open spec fn same_but_len(a: SharedChunk, b: SharedChunk) -> bool {
    a == (SharedChunk { chunk: ChunkRef { len: a.chunk.len, ..b.chunk }, refs: b.refs })
}

/// The records while a sequence grows from the handles `before` to `after`, taking
/// slots from the end of `free`: chunks that were there keep all but their length,
/// the k-th opened chunk is alone in the k-th slot from the end, and every other
/// record stays.
pub open spec fn grown(
    t: Map<usize, SharedChunk>,
    u: Map<usize, SharedChunk>,
    before: Seq<ChunkHandle>,
    after: Seq<ChunkHandle>,
    free: Seq<u32>,
) -> bool {
    let n = before.len();
    &&& n <= after.len() <= n + free.len()
    &&& after.take(n as int) == before
    &&& forall|i: int|
        0 <= i < n ==> same_but_len(u[(#[trigger] before[i]).inner], t[before[i].inner])
    &&& forall|i: int|
        n <= i < after.len() ==> {
            let id = (#[trigger] after[i]).inner;
            &&& !t.dom().contains(id)
            &&& same_but_len(
                u[id],
                SharedChunk {
                    chunk: ChunkRef::fresh(free[free.len() - 1 - (i - n)]),
                    refs: 1,
                },
            )
        }
    &&& forall|id: usize| #[trigger]
        t.dom().contains(id) ==> u.dom().contains(id) && (named(before, id) || u[id] == t[id])
    &&& forall|id: usize| #[trigger]
        u.dom().contains(id) ==> t.dom().contains(id) || named(after, id)
}

/// Some handle of the list names the record.
pub open spec fn named(chunks: Seq<ChunkHandle>, id: usize) -> bool {
    exists|i: int| 0 <= i < chunks.len() && (#[trigger] chunks[i]).inner == id
}

/// Chunks that a packed sequence opens while it grows to `len` tokens from a pool
/// with `free` slots.
pub open spec fn chunks_opened(seq: &SequenceState, free: nat, len: int) -> int {
    let missing = crate::arith::ceil_div(len, seq.chunk_tokens as int) - seq.chunks@.len();
    if missing <= 0 {
        0
    } else if missing <= free {
        missing
    } else {
        free as int
    }
}

impl SequenceState {
    /// Every chunk handle names a live record.
    pub open spec fn live(&self, t: &ChunkTable) -> bool {
        &&& t.wf()
        &&& forall|i: int|
            0 <= i < self.chunks@.len() ==> t@.dom().contains((#[trigger] self.chunks@[i]).inner)
    }

    /// Whether the next token needs another chunk.
    pub open spec fn needs_new_chunk(&self, t: &ChunkTable) -> bool {
        self.chunks@.len() == 0 || self.chunks@.last().chunk(t).len >= self.chunk_tokens
    }

    /// The fields that hold no chunk are untouched.
    pub open spec fn same_rest(&self, other: &SequenceState) -> bool {
        &&& self.chunk_tokens == other.chunk_tokens
        &&& self.staging_buffer == other.staging_buffer
        &&& self.quant_slots@ == other.quant_slots@
    }

    /// The shape a sequence keeps when it only grows by `append_token`: no chunk
    /// occurs twice, all chunks but the last are full, the last is not empty, and
    /// token count, positions and chunk lengths agree.
    pub open spec fn packed(&self, t: &ChunkTable) -> bool {
        &&& self.live(t)
        &&& self.chunk_tokens > 0
        &&& forall|i: int, j: int|
            0 <= i < j < self.chunks@.len() ==> (#[trigger] self.chunks@[i]).inner != (
            #[trigger] self.chunks@[j]).inner
        &&& forall|i: int|
            0 <= i < self.chunks@.len() - 1 ==> (#[trigger] self.chunks@[i]).chunk(t).len
                == self.chunk_tokens
        &&& self.chunks@.len() > 0 ==> 0 < self.chunks@.last().chunk(t).len
            <= self.chunk_tokens
        &&& self.positions@.len() == self.seq_len
        &&& tokens_in(t@, self.chunks@) == self.seq_len
    }

    pub fn new(chunk_tokens: u32) -> (r: Self)
        ensures
            r.chunks@.len() == 0,
            r.seq_len == 0,
            r.positions@.len() == 0,
            r.kv_version == 0,
            r.chunk_tokens == chunk_tokens,
            r.staging_buffer is None,
            r.quant_slots@.len() == 0,
    {
        SequenceState {
            chunks: Vec::new(),
            seq_len: 0,
            positions: Vec::new(),
            kv_version: 0,
            chunk_tokens,
            staging_buffer: None,
            quant_slots: Vec::new(),
        }
    }

    /// Bytes of the staging buffer a quantized sequence needs.
    pub fn staging_bytes(chunk_tokens: u32, config: &ModelConfig) -> (bytes: usize)
        requires
            config.num_kv_heads * config.head_dim <= usize::MAX,
            geometry::chunk_bytes_of(config, chunk_tokens as nat) <= usize::MAX,
        ensures
            bytes == geometry::chunk_bytes_of(config, chunk_tokens as nat),
    {
        chunk_kv_bytes(config, chunk_tokens as usize)
    }

    /// A sequence that stages its incomplete chunk at `staging`.
    pub fn new_quantized(chunk_tokens: u32, staging: usize) -> (r: Self)
        ensures
            r.chunks@.len() == 0,
            r.seq_len == 0,
            r.positions@.len() == 0,
            r.kv_version == 0,
            r.chunk_tokens == chunk_tokens,
            r.staging_buffer == Some(staging),
            r.quant_slots@.len() == 0,
    {
        SequenceState {
            chunks: Vec::new(),
            seq_len: 0,
            positions: Vec::new(),
            kv_version: 0,
            chunk_tokens,
            staging_buffer: Some(staging),
            quant_slots: Vec::new(),
        }
    }

    /// Returns every quantized slot to its pool, first to last.
    pub fn free_quant_slots(&mut self, quant_allocator: &mut PageAllocator)
        requires
            old(quant_allocator).wf(),
            old(self).quant_slots@.no_duplicates(),
            forall|i: int|
                0 <= i < old(self).quant_slots@.len() ==> {
                    let slot = #[trigger] old(self).quant_slots@[i];
                    slot < old(quant_allocator)@.capacity && !old(quant_allocator)@.free.contains(slot)
                },
        ensures
            final(quant_allocator).wf(),
            final(quant_allocator).same_setup(old(quant_allocator)),
            final(quant_allocator)@ == (PoolState {
                free: old(quant_allocator)@.free + old(self).quant_slots@,
                ..old(quant_allocator)@
            }),
            final(self).quant_slots@.len() == 0,
            final(self).chunks@ == old(self).chunks@,
            final(self).seq_len == old(self).seq_len,
            final(self).positions@ == old(self).positions@,
            final(self).kv_version == old(self).kv_version,
            final(self).chunk_tokens == old(self).chunk_tokens,
            final(self).staging_buffer == old(self).staging_buffer,
    {
        let mut i: usize = 0;
        while i < self.quant_slots.len()
            invariant
                *self == *old(self),
                i <= self.quant_slots@.len(),
                quant_allocator.wf(),
                quant_allocator.same_setup(old(quant_allocator)),
                self.quant_slots@.no_duplicates(),
                quant_allocator@ == (PoolState {
                    free: old(quant_allocator)@.free + self.quant_slots@.take(i as int),
                    ..old(quant_allocator)@
                }),
                forall|k: int|
                    0 <= k < self.quant_slots@.len() ==> {
                        let slot = #[trigger] self.quant_slots@[k];
                        slot < old(quant_allocator)@.capacity && !old(quant_allocator)@.free.contains(slot)
                    },
            decreases self.quant_slots@.len() - i,
        {
            let slot: u32 = self.quant_slots[i];
            proof {
                let before = old(quant_allocator)@.free;
                let done = self.quant_slots@.take(i as int);
                assert(slot == self.quant_slots@[i as int]);
                assert(!done.contains(slot));
                assert(!(before + done).contains(slot)) by {
                    if (before + done).contains(slot) {
                        let k = choose|k: int|
                            0 <= k < (before + done).len() && (before + done)[k] == slot;
                        if k < before.len() {
                            assert(before[k] == slot);
                        } else {
                            assert(done[k - before.len()] == slot);
                        }
                    }
                }
                assert(self.quant_slots@.take(i + 1) =~= done.push(slot));
                assert((before + done).push(slot) =~= before + self.quant_slots@.take(i + 1));
            }
            quant_allocator.free(slot);
            i += 1;
        }
        proof {
            assert(self.quant_slots@.take(i as int) =~= self.quant_slots@);
        }
        self.quant_slots.clear();
    }

    /// Appends a token, opening a chunk when the current one is full. Fails only
    /// when a chunk is needed and the pool is exhausted; nothing changes then.
    pub fn append_token(
        &mut self,
        table: &mut ChunkTable,
        position: i32,
        allocator: &mut PageAllocator,
    ) -> (r: Result<(), HipError>)
        requires
            old(self).live(old(table)),
            old(allocator).wf(),
            old(self).seq_len < u32::MAX,
            old(self).needs_new_chunk(old(table)) && old(allocator)@.free.len() > 0
                ==> old(self).kv_version < u32::MAX,
        ensures
            final(self).live(final(table)),
            final(allocator).wf(),
            final(allocator).same_setup(old(allocator)),
            final(self).same_rest(old(self)),
            old(self).packed(old(table)) ==> final(self).packed(final(table)),
            in_pool(old(self), old(table), old(allocator)@) ==> in_pool(
                final(self),
                final(table),
                final(allocator)@,
            ),
            old(self).packed(old(table)) && owns(old(self), old(table), old(allocator)@) ==> owns(
                final(self),
                final(table),
                final(allocator)@,
            ),
            r is Err <==> old(self).needs_new_chunk(old(table)) && old(allocator)@.free.len() == 0,
            r is Err ==> {
                &&& r->Err_0 == HipError::OutOfMemory
                &&& final(self).chunks@ == old(self).chunks@
                &&& final(self).seq_len == old(self).seq_len
                &&& final(self).positions@ == old(self).positions@
                &&& final(self).kv_version == old(self).kv_version
                &&& final(table)@ == old(table)@
                &&& final(allocator)@ == old(allocator)@
            },
            r is Ok ==> {
                &&& final(self).seq_len == old(self).seq_len + 1
                &&& final(self).positions@ == old(self).positions@.push(position)
            },
            r is Ok && old(self).needs_new_chunk(old(table)) ==> {
                let h = final(self).chunks@.last();
                &&& final(self).chunks@ == old(self).chunks@.push(h)
                &&& !old(table)@.dom().contains(h.inner)
                &&& final(table)@ == old(table)@.insert(
                    h.inner,
                    SharedChunk {
                        chunk: ChunkRef {
                            len: 1,
                            ..ChunkRef::fresh(old(allocator)@.free.last())
                        },
                        refs: 1,
                    },
                )
                &&& final(allocator)@ == old(allocator)@.allocated()
                &&& final(self).kv_version == old(self).kv_version + 1
            },
            r is Ok && !old(self).needs_new_chunk(old(table)) ==> {
                let h = old(self).chunks@.last();
                &&& final(self).chunks@ == old(self).chunks@
                &&& final(table)@ == chunk::with_chunk(
                    old(table)@,
                    h.inner,
                    ChunkRef {
                        len: h.chunk(old(table)).len.wrapping_add(1),
                        ..h.chunk(old(table))
                    },
                )
                &&& final(allocator)@ == old(allocator)@
                &&& final(self).kv_version == old(self).kv_version
            },
    {
        let n: usize = self.chunks.len();
        let needs_new_chunk: bool = n == 0 || self.chunks[n - 1].len(table) >= self.chunk_tokens;
        if needs_new_chunk {
            match allocator.alloc_slot() {
                None => {
                    return Err(HipError::OutOfMemory);
                },
                Some((slot, _)) => {
                    let h = ChunkHandle::new(table, slot);
                    self.chunks.push(h);
                    self.kv_version = self.kv_version + 1;
                },
            }
        }
        let last: usize = self.chunks.len() - 1;
        assert(table@.dom().contains(self.chunks@[last as int].inner));
        self.chunks[last].increment_len(table);
        proof {
            if needs_new_chunk {
                let h = self.chunks@.last();
                assert(table@ =~= old(table)@.insert(
                    h.inner,
                    SharedChunk {
                        chunk: ChunkRef {
                            len: 1,
                            ..ChunkRef::fresh(old(allocator)@.free.last())
                        },
                        refs: 1,
                    },
                ));
                assert(self.chunks@ =~= old(self).chunks@.push(h));
            }
            if old(self).packed(old(table)) {
                lemma_append_tokens(old(table)@, table@, old(self).chunks@, self.chunks@);
            }
        }
        self.seq_len = self.seq_len + 1;
        self.positions.push(position);
        assert forall|i: int| 0 <= i < self.chunks@.len() implies table@.dom().contains(
            (#[trigger] self.chunks@[i]).inner,
        ) by {
            if i < old(self).chunks@.len() {
                assert(self.chunks@[i] == old(self).chunks@[i]);
                assert(old(table)@.dom().contains(old(self).chunks@[i].inner));
            }
        }
        assert(in_pool(old(self), old(table), old(allocator)@) ==> in_pool(
            self,
            table,
            allocator@,
        )) by {
            if in_pool(old(self), old(table), old(allocator)@) {
                assert forall|i: int| 0 <= i < self.chunks@.len() implies (
                #[trigger] self.chunks@[i]).chunk(table).slot_index < allocator@.capacity by {
                    if i < old(self).chunks@.len() {
                        assert(self.chunks@[i] == old(self).chunks@[i]);
                        assert(old(self).chunks@[i].chunk(old(table)).slot_index
                            < old(allocator)@.capacity);
                    }
                }
            }
        }
        assert(old(self).packed(old(table)) && owns(old(self), old(table), old(allocator)@) ==> owns(
            self,
            table,
            allocator@,
        )) by {
            if old(self).packed(old(table)) && owns(old(self), old(table), old(allocator)@) {
                if needs_new_chunk {
                    let h = self.chunks@.last();
                    assert(table@.remove(h.inner) =~= old(table)@.remove(h.inner));
                }
                lemma_append_owns(
                    old(self),
                    self,
                    old(table),
                    table,
                    old(allocator)@,
                    allocator@,
                    needs_new_chunk,
                );
            }
        }
        Ok(())
    }

    /// Gives up every chunk and clears the sequence. A slot goes back to the pool
    /// only with the last handle to its chunk; a chunk another sequence shares
    /// keeps its slot.
    pub fn reset(&mut self, table: &mut ChunkTable, allocator: &mut PageAllocator)
        requires
            old(table).wf(),
            old(allocator).wf(),
            reset_ok(
                old(table)@,
                old(allocator)@.free,
                old(allocator)@.capacity,
                old(self).chunks@,
            ),
            old(self).kv_version < u32::MAX,
        ensures
            final(table).wf(),
            final(allocator).wf(),
            final(allocator).same_setup(old(allocator)),
            ({
                let (t, free) = reset_all(
                    old(table)@,
                    old(allocator)@.free,
                    old(self).chunks@,
                );
                &&& final(table)@ == t
                &&& final(allocator)@ == (PoolState { free, ..old(allocator)@ })
            }),
            final(self).chunks@.len() == 0,
            final(self).seq_len == 0,
            final(self).positions@.len() == 0,
            final(self).kv_version == old(self).kv_version + 1,
            final(self).same_rest(old(self)),
    {
        let n: usize = self.chunks.len();
        let mut i: usize = 0;
        assert(self.chunks@.take(0).len() == 0);
        assert(allocator@ =~= (PoolState { free: old(allocator)@.free, ..old(allocator)@ }));
        proof {
            lemma_reset_ok_prefix(
                old(table)@,
                old(allocator)@.free,
                old(allocator)@.capacity,
                old(self).chunks@,
            );
        }
        while i < n
            invariant
                *self == *old(self),
                n == self.chunks@.len(),
                i <= n,
                table.wf(),
                allocator.wf(),
                allocator.same_setup(old(allocator)),
                forall|k: int|
                    0 <= k <= n ==> reset_ok(
                        old(table)@,
                        old(allocator)@.free,
                        old(allocator)@.capacity,
                        #[trigger] self.chunks@.take(k),
                    ),
                table@ == reset_all(
                    old(table)@,
                    old(allocator)@.free,
                    self.chunks@.take(i as int),
                ).0,
                allocator@ == (PoolState {
                    free: reset_all(
                        old(table)@,
                        old(allocator)@.free,
                        self.chunks@.take(i as int),
                    ).1,
                    ..old(allocator)@
                }),
            decreases n - i,
        {
            proof {
                let k = i + 1;
                assert(reset_ok(
                    old(table)@,
                    old(allocator)@.free,
                    old(allocator)@.capacity,
                    self.chunks@.take(k),
                ));
                assert(self.chunks@.take(k).drop_last() =~= self.chunks@.take(i as int));
                assert(self.chunks@.take(k).last() == self.chunks@[i as int]);
            }
            if self.chunks[i].strong_count(table) == 1 {
                let slot: u32 = self.chunks[i].slot_index(table);
                allocator.free(slot);
            }
            table.drop_ref(self.chunks[i].inner);
            i += 1;
        }
        assert(self.chunks@.take(n as int) =~= self.chunks@);
        self.chunks.clear();
        self.seq_len = 0;
        self.positions.clear();
        self.kv_version = self.kv_version + 1;
    }

    /// The chunk being written, if any.
    pub fn current_chunk_mut(&mut self) -> (r: Option<&mut ChunkHandle>)
        ensures
            r is None <==> old(self).chunks@.len() == 0,
            r matches Some(h) ==> {
                &&& *h == old(self).chunks@.last()
                &&& final(self).chunks@ == old(self).chunks@.update(
                    old(self).chunks@.len() - 1,
                    *final(h),
                )
            },
            r is None ==> final(self).chunks@ == old(self).chunks@,
            final(self).seq_len == old(self).seq_len,
            final(self).positions@ == old(self).positions@,
            final(self).kv_version == old(self).kv_version,
            final(self).same_rest(old(self)),
    {
        let n: usize = self.chunks.len();
        if n == 0 {
            None
        } else {
            Some(&mut self.chunks[n - 1])
        }
    }

    /// Index of the current chunk; 0 when there is none.
    pub fn current_chunk_idx(&self) -> (r: usize)
        ensures
            r == if self.chunks@.len() == 0 {
                0
            } else {
                self.chunks@.len() - 1
            },
    {
        self.chunks.len().saturating_sub(1)
    }

    /// Offset within the current chunk, below `chunk_tokens`; 0 when there is no chunk,
    /// or when the next token opens another.
    pub fn current_chunk_offset(&self, table: &ChunkTable) -> (r: u32)
        requires
            self.live(table),
        ensures
            r == if self.chunks@.len() == 0 || self.chunk_tokens == 0 {
                0
            } else {
                self.chunks@.last().chunk(table).len % self.chunk_tokens
            },
            self.chunk_tokens > 0 ==> r < self.chunk_tokens,
    {
        let n: usize = self.chunks.len();
        if n == 0 || self.chunk_tokens == 0 {
            0
        } else {
            self.chunks[n - 1].len(table) % self.chunk_tokens
        }
    }
}

/// Records that the listed chunks do not name have no say in their token count.
proof fn lemma_tokens_frame(
    t: Map<usize, SharedChunk>,
    u: Map<usize, SharedChunk>,
    chunks: Seq<ChunkHandle>,
)
    requires
        forall|i: int|
            0 <= i < chunks.len() ==> t[(#[trigger] chunks[i]).inner].chunk.len
                == u[chunks[i].inner].chunk.len,
    ensures
        tokens_in(t, chunks) == tokens_in(u, chunks),
    decreases chunks.len(),
{
    if chunks.len() > 0 {
        let front = chunks.drop_last();
        assert forall|i: int| 0 <= i < front.len() implies t[(
        #[trigger] front[i]).inner].chunk.len == u[front[i].inner].chunk.len by {
            assert(front[i] == chunks[i]);
        }
        assert(chunks.last() == chunks[chunks.len() - 1]);
        lemma_tokens_frame(t, u, front);
    }
}

/// Appending counts exactly one more token.
proof fn lemma_append_tokens(
    t: Map<usize, SharedChunk>,
    u: Map<usize, SharedChunk>,
    before: Seq<ChunkHandle>,
    after: Seq<ChunkHandle>,
)
    requires
        after.len() > 0,
        forall|i: int, j: int|
            0 <= i < j < before.len() ==> (#[trigger] before[i]).inner != (
            #[trigger] before[j]).inner,
        ({
            let h = after.last();
            ||| {
                &&& after == before.push(h)
                &&& u[h.inner].chunk.len == 1
                &&& forall|i: int|
                    0 <= i < before.len() ==> u[(#[trigger] before[i]).inner] == t[before[i].inner]
            }
            ||| {
                &&& after == before
                &&& u[h.inner].chunk.len == t[h.inner].chunk.len + 1
                &&& forall|i: int|
                    0 <= i < before.len() - 1 ==> u[(#[trigger] before[i]).inner]
                        == t[before[i].inner]
            }
        }),
    ensures
        tokens_in(u, after) == tokens_in(t, before) + 1,
{
    let h = after.last();
    if after == before.push(h) && u[h.inner].chunk.len == 1 && (forall|i: int|
        0 <= i < before.len() ==> u[(#[trigger] before[i]).inner] == t[before[i].inner]) {
        assert(after.drop_last() =~= before);
        lemma_tokens_frame(t, u, before);
    } else {
        let front = before.drop_last();
        assert forall|i: int| 0 <= i < front.len() implies t[(
        #[trigger] front[i]).inner].chunk.len == u[front[i].inner].chunk.len by {
            assert(front[i] == before[i]);
        }
        lemma_tokens_frame(t, u, front);
    }
}

/// Appending a token keeps the chunks owned: an opened chunk takes a slot that was
/// free, so nobody held it.
proof fn lemma_append_owns(
    old: &SequenceState,
    new: &SequenceState,
    t0: &ChunkTable,
    t1: &ChunkTable,
    p0: PoolState,
    p1: PoolState,
    fresh: bool,
)
    requires
        old.packed(t0),
        owns(old, t0, p0),
        in_pool(new, t1, p1),
        p0.no_double(),
        fresh ==> {
            let h = new.chunks@.last();
            &&& p0.free.len() > 0
            &&& new.chunks@ == old.chunks@.push(h)
            &&& !t0@.dom().contains(h.inner)
            &&& t1@.remove(h.inner) == t0@.remove(h.inner)
            &&& h.refs(t1) == 1
            &&& h.chunk(t1).slot_index == p0.free.last()
            &&& p1 == p0.allocated()
        },
        !fresh ==> {
            &&& new.chunks@ == old.chunks@
            &&& p1 == p0
            &&& forall|id: usize|
                t0@.dom().contains(id) ==> (#[trigger] t1@[id]).refs == t0@[id].refs
                    && t1@[id].chunk.slot_index == t0@[id].chunk.slot_index
        },
    ensures
        owns(new, t1, p1),
{
    let n = old.chunks@.len() as int;
    assert forall|i: int| 0 <= i < n implies (#[trigger] new.chunks@[i]).refs(t1) == 1
        && new.chunks@[i].chunk(t1).slot_index == old.chunks@[i].chunk(t0).slot_index
        && new.chunks@[i] == old.chunks@[i] by {
        let id = old.chunks@[i].inner;
        assert(t0@.dom().contains(id));
        assert(old.chunks@[i].refs(t0) == 1);
        if fresh {
            let h = new.chunks@.last();
            assert(t1@.remove(h.inner)[id] == t0@.remove(h.inner)[id]);
        }
    }
    if fresh {
        let slot = p0.free.last();
        assert(p1.free =~= p0.free.drop_last());
        assert(p0.free.contains(slot)) by {
            assert(p0.free[p0.free.len() - 1] == slot);
        }
        assert(!p1.free.contains(slot)) by {
            if p1.free.contains(slot) {
                let k = choose|k: int| 0 <= k < p1.free.len() && p1.free[k] == slot;
                assert(p0.free[k] == p0.free[p0.free.len() - 1]);
            }
        }
    }
    assert forall|i: int| 0 <= i < new.chunks@.len() implies (#[trigger] new.chunks@[i]).refs(t1)
        == 1 && !p1.free.contains(new.chunks@[i].chunk(t1).slot_index) by {
        if i < n {
            let slot = old.chunks@[i].chunk(t0).slot_index;
            assert(!p0.free.contains(slot));
            if p1.free.contains(slot) {
                let k = choose|k: int| 0 <= k < p1.free.len() && p1.free[k] == slot;
                assert(p0.free[k] == slot);
            }
        }
    }
    assert forall|i: int, j: int| 0 <= i < j < new.chunks@.len() implies (
    #[trigger] new.chunks@[i]).chunk(t1).slot_index != (#[trigger] new.chunks@[j]).chunk(
        t1,
    ).slot_index by {
        assert(old.chunks@[i].chunk(t0).slot_index == new.chunks@[i].chunk(t1).slot_index);
        assert(!p0.free.contains(old.chunks@[i].chunk(t0).slot_index));
        if j < n {
            assert(old.chunks@[j].chunk(t0).slot_index == new.chunks@[j].chunk(t1).slot_index);
        }
    }
}

/// No handle of the list names the same record as another.
pub open spec fn distinct(chunks: Seq<ChunkHandle>) -> bool {
    forall|i: int, j: int|
        0 <= i < j < chunks.len() ==> (#[trigger] chunks[i]).inner != (#[trigger] chunks[j]).inner
}

/// Slots of the chunks nobody else holds, in order.
pub open spec fn exclusive_slots(
    t: Map<usize, SharedChunk>,
    chunks: Seq<ChunkHandle>,
) -> Seq<u32>
    decreases chunks.len(),
{
    if chunks.len() == 0 {
        Seq::empty()
    } else {
        let front = exclusive_slots(t, chunks.drop_last());
        if t[chunks.last().inner].refs == 1 {
            front.push(t[chunks.last().inner].chunk.slot_index)
        } else {
            front
        }
    }
}

/// A reset of a list without repeats returns exactly the slots nobody else
/// holds, in order, and touches no record outside the list. A shared chunk
/// survives with one handle fewer; an exclusive one is gone.
pub proof fn law_reset_frees_exclusive_only(
    t: Map<usize, SharedChunk>,
    free: Seq<u32>,
    chunks: Seq<ChunkHandle>,
)
    requires
        distinct(chunks),
        forall|i: int| 0 <= i < chunks.len() ==> t.dom().contains((#[trigger] chunks[i]).inner),
    ensures
        ({
            let (t1, f1) = reset_all(t, free, chunks);
            &&& f1 == free + exclusive_slots(t, chunks)
            &&& forall|id: usize|
                (forall|i: int| 0 <= i < chunks.len() ==> (#[trigger] chunks[i]).inner != id) ==> {
                    &&& t1.dom().contains(id) == #[trigger] t.dom().contains(id)
                    &&& t.dom().contains(id) ==> t1[id] == t[id]
                }
            &&& forall|i: int|
                #![trigger chunks[i]]
                0 <= i < chunks.len() ==> {
                    let id = chunks[i].inner;
                    &&& t[id].refs == 1 ==> !t1.dom().contains(id)
                    &&& t[id].refs > 1 ==> t1.dom().contains(id) && t1[id] == (SharedChunk {
                        refs: (t[id].refs - 1) as usize,
                        ..t[id]
                    })
                }
        }),
    decreases chunks.len(),
{
    if chunks.len() == 0 {
        assert(free + exclusive_slots(t, chunks) =~= free);
    } else {
        let front = chunks.drop_last();
        let h = chunks.last();
        assert(forall|i: int| #![trigger front[i]] 0 <= i < front.len() ==> front[i] == chunks[i]);
        assert(chunks[chunks.len() - 1] == h);
        law_reset_frees_exclusive_only(t, free, front);
        let (t0, f0) = reset_all(t, free, front);
        assert(forall|i: int|
            0 <= i < front.len() ==> (#[trigger] front[i]).inner != h.inner);
        assert(t0.dom().contains(h.inner) == t.dom().contains(h.inner));
        let (t1, f1) = reset_all(t, free, chunks);
        assert(t.dom().contains(h.inner) ==> t0[h.inner] == t[h.inner]);
        assert(f1 =~= free + exclusive_slots(t, chunks));
        assert forall|id: usize|
            (forall|i: int| 0 <= i < chunks.len() ==> (#[trigger] chunks[i]).inner != id) implies {
            &&& t1.dom().contains(id) == #[trigger] t.dom().contains(id)
            &&& t.dom().contains(id) ==> t1[id] == t[id]
        } by {
            assert(chunks[chunks.len() - 1].inner != id);
            assert forall|i: int| 0 <= i < front.len() implies (#[trigger] front[i]).inner != id by {
                assert(chunks[i].inner != id);
            }
        }
        assert forall|i: int| #![trigger chunks[i]] 0 <= i < chunks.len() implies {
            let id = chunks[i].inner;
            &&& t[id].refs == 1 ==> !t1.dom().contains(id)
            &&& t[id].refs > 1 ==> t1.dom().contains(id) && t1[id] == (SharedChunk {
                refs: (t[id].refs - 1) as usize,
                ..t[id]
            })
        } by {
            if i < front.len() {
                assert(front[i].inner == chunks[i].inner);
                assert(chunks[i].inner != h.inner);
            }
        }
    }
}

/// A sequence without repeats whose exclusive slots are out, each held once, can
/// always be reset.
pub proof fn law_reset_always_possible(
    t: Map<usize, SharedChunk>,
    free: Seq<u32>,
    capacity: nat,
    chunks: Seq<ChunkHandle>,
)
    requires
        distinct(chunks),
        forall|i: int| 0 <= i < chunks.len() ==> t.dom().contains((#[trigger] chunks[i]).inner),
        forall|i: int|
            #![trigger chunks[i]]
            0 <= i < chunks.len() && t[chunks[i].inner].refs == 1
                ==> t[chunks[i].inner].chunk.slot_index < capacity && !free.contains(
                t[chunks[i].inner].chunk.slot_index,
            ),
        exclusive_slots(t, chunks).no_duplicates(),
    ensures
        reset_ok(t, free, capacity, chunks),
    decreases chunks.len(),
{
    if chunks.len() > 0 {
        let front = chunks.drop_last();
        let h = chunks.last();
        assert(forall|i: int| #![trigger front[i]] 0 <= i < front.len() ==> front[i] == chunks[i]);
        assert(chunks[chunks.len() - 1] == h);
        let ex = exclusive_slots(t, chunks);
        let ex0 = exclusive_slots(t, front);
        assert(ex0.no_duplicates()) by {
            assert(forall|i: int| #![trigger ex0[i]] 0 <= i < ex0.len() ==> ex0[i] == ex[i]);
        }
        law_reset_always_possible(t, free, capacity, front);
        law_reset_frees_exclusive_only(t, free, front);
        let (t0, f0) = reset_all(t, free, front);
        assert(forall|i: int| 0 <= i < front.len() ==> (#[trigger] front[i]).inner != h.inner);
        assert(t.dom().contains(h.inner));
        assert(t0.dom().contains(h.inner) && t0[h.inner] == t[h.inner]);
        if t[h.inner].refs == 1 {
            let slot = t[h.inner].chunk.slot_index;
            assert(ex[ex.len() - 1] == slot);
            assert(!f0.contains(slot)) by {
                if f0.contains(slot) {
                    let k = choose|k: int| 0 <= k < f0.len() && f0[k] == slot;
                    if k < free.len() {
                        assert(free[k] == slot);
                    } else {
                        assert(ex[k - free.len()] == ex0[k - free.len()]);
                    }
                }
            }
        }
    }
}

/// The slots of the chunks in order.
pub open spec fn slots_of(seq: &SequenceState, t: &ChunkTable) -> Seq<u32> {
    Seq::new(seq.chunks@.len(), |i: int| seq.chunks@[i].chunk(t).slot_index)
}

proof fn lemma_owned_slots(t: Map<usize, SharedChunk>, chunks: Seq<ChunkHandle>)
    requires
        forall|i: int| 0 <= i < chunks.len() ==> t[(#[trigger] chunks[i]).inner].refs == 1,
    ensures
        exclusive_slots(t, chunks) == Seq::new(
            chunks.len(),
            |i: int| t[chunks[i].inner].chunk.slot_index,
        ),
    decreases chunks.len(),
{
    if chunks.len() > 0 {
        let front = chunks.drop_last();
        assert(forall|i: int| #![trigger front[i]] 0 <= i < front.len() ==> front[i] == chunks[i]);
        assert(chunks.last() == chunks[chunks.len() - 1]);
        lemma_owned_slots(t, front);
    }
    assert(exclusive_slots(t, chunks) =~= Seq::new(
        chunks.len(),
        |i: int| t[chunks[i].inner].chunk.slot_index,
    ));
}

/// A sequence that owns its chunks can always be reset, and gets every slot back
/// to the pool: nothing leaks, nothing is returned twice.
pub proof fn law_owner_returns_all(seq: &SequenceState, t: &ChunkTable, pool: PoolState)
    requires
        seq.packed(t),
        owns(seq, t, pool),
    ensures
        reset_ok(t@, pool.free, pool.capacity, seq.chunks@),
        reset_all(t@, pool.free, seq.chunks@).1 == pool.free + slots_of(seq, t),
        slots_of(seq, t).no_duplicates(),
{
    lemma_owned_slots(t@, seq.chunks@);
    assert(exclusive_slots(t@, seq.chunks@) =~= slots_of(seq, t));
    assert forall|i: int, j: int|
        0 <= i < slots_of(seq, t).len() && 0 <= j < slots_of(seq, t).len() && i != j implies slots_of(
        seq,
        t,
    )[i] != slots_of(seq, t)[j] by {
        if i < j {
            assert(seq.chunks@[i].chunk(t).slot_index != seq.chunks@[j].chunk(t).slot_index);
        } else {
            assert(seq.chunks@[j].chunk(t).slot_index != seq.chunks@[i].chunk(t).slot_index);
        }
    }
    assert forall|i: int|
        #![trigger seq.chunks@[i]]
        0 <= i < seq.chunks@.len() && t@[seq.chunks@[i].inner].refs
            == 1 implies t@[seq.chunks@[i].inner].chunk.slot_index < pool.capacity
        && !pool.free.contains(t@[seq.chunks@[i].inner].chunk.slot_index) by {
        assert(seq.chunks@[i].chunk(t).slot_index < pool.capacity);
        assert(seq.chunks@[i].refs(t) == 1);
    }
    law_reset_always_possible(t@, pool.free, pool.capacity, seq.chunks@);
    law_reset_frees_exclusive_only(t@, pool.free, seq.chunks@);
}

/// A list of `n` packed chunks holds `n - 1` full chunks and the last one's
/// tokens, so it has exactly as many chunks as its tokens need.
pub proof fn law_packed_chunk_count(seq: &SequenceState, t: &ChunkTable)
    requires
        seq.packed(t),
    ensures
        seq.chunks@.len() == crate::arith::ceil_div(seq.seq_len as int, seq.chunk_tokens as int),
{
    let n = seq.chunks@.len() as int;
    let ct = seq.chunk_tokens as int;
    if n == 0 {
        vstd::arithmetic::div_mod::lemma_fundamental_div_mod_converse(ct - 1, ct, 0, ct - 1);
    } else {
        let front = seq.chunks@.drop_last();
        let last = seq.chunks@.last().chunk(t).len as int;
        assert(forall|i: int| #![trigger front[i]] 0 <= i < front.len() ==> front[i] == seq.chunks@[i]);
        lemma_full_tokens(t@, front, seq.chunk_tokens);
        assert(seq.seq_len == (n - 1) * ct + last);
        assert((n - 1) * ct + last + ct - 1 == ct * n + (last - 1)) by (nonlinear_arith);
        vstd::arithmetic::div_mod::lemma_fundamental_div_mod_converse(
            seq.seq_len + ct - 1,
            ct,
            n,
            last - 1,
        );
    }
}

/// A packed sequence opens a chunk exactly when its chunks are used up.
pub proof fn law_packed_room(seq: &SequenceState, t: &ChunkTable)
    requires
        seq.packed(t),
    ensures
        seq.seq_len <= seq.chunks@.len() * seq.chunk_tokens,
        seq.needs_new_chunk(t) <==> seq.seq_len == seq.chunks@.len() * seq.chunk_tokens,
{
    let n = seq.chunks@.len() as int;
    let ct = seq.chunk_tokens as int;
    if n > 0 {
        let front = seq.chunks@.drop_last();
        assert(forall|i: int| #![trigger front[i]] 0 <= i < front.len() ==> front[i] == seq.chunks@[i]);
        lemma_full_tokens(t@, front, seq.chunk_tokens);
        assert((n - 1) * ct + ct == n * ct) by (nonlinear_arith);
    }
}

/// Chunk `i` of a packed sequence holds what the chunks before it leave over, up to
/// a full chunk.
pub proof fn law_packed_len(seq: &SequenceState, t: &ChunkTable, i: int)
    requires
        seq.packed(t),
        0 <= i < seq.chunks@.len(),
    ensures
        ({
            let rest = seq.seq_len - i * seq.chunk_tokens;
            let ct = seq.chunk_tokens as int;
            &&& rest > 0
            &&& seq.chunks@[i].chunk(t).len == if rest < ct {
                rest
            } else {
                ct
            }
            &&& i < seq.chunks@.len() - 1 ==> rest > ct
        }),
{
    let n = seq.chunks@.len() as int;
    let ct = seq.chunk_tokens as int;
    let front = seq.chunks@.drop_last();
    assert(forall|k: int| #![trigger front[k]] 0 <= k < front.len() ==> front[k] == seq.chunks@[k]);
    lemma_full_tokens(t@, front, seq.chunk_tokens);
    if i < n - 1 {
        crate::arith::lemma_scaled_index(i, n - 1, ct);
    }
}

/// Standing still is growing by nothing.
pub proof fn lemma_grown_refl(t: Map<usize, SharedChunk>, chunks: Seq<ChunkHandle>, free: Seq<u32>)
    ensures
        grown(t, t, chunks, chunks, free),
{
    assert(chunks.take(chunks.len() as int) =~= chunks);
}

/// Growing step by step is growing at once.
pub proof fn lemma_grown_trans(
    t: Map<usize, SharedChunk>,
    u: Map<usize, SharedChunk>,
    v: Map<usize, SharedChunk>,
    a: Seq<ChunkHandle>,
    b: Seq<ChunkHandle>,
    c: Seq<ChunkHandle>,
    free: Seq<u32>,
)
    requires
        grown(t, u, a, b, free),
        grown(u, v, b, c, free.take(free.len() - (b.len() - a.len()))),
        forall|i: int| 0 <= i < b.len() ==> u.dom().contains((#[trigger] b[i]).inner),
    ensures
        grown(t, v, a, c, free),
{
    let rest = free.take(free.len() - (b.len() - a.len()));
    assert(c.take(a.len() as int) =~= b.take(a.len() as int));
    assert forall|i: int| 0 <= i < a.len() implies same_but_len(
        v[(#[trigger] a[i]).inner],
        t[a[i].inner],
    ) by {
        assert(b[i] == a[i]);
        assert(same_but_len(v[b[i].inner], u[b[i].inner]));
    }
    assert forall|i: int| a.len() <= i < c.len() implies {
        let id = (#[trigger] c[i]).inner;
        &&& !t.dom().contains(id)
        &&& same_but_len(
            v[id],
            SharedChunk {
                chunk: ChunkRef::fresh(free[free.len() - 1 - (i - a.len())]),
                refs: 1,
            },
        )
    } by {
        let id = c[i].inner;
        if i < b.len() {
            assert(b[i] == c[i]);
            assert(same_but_len(v[b[i].inner], u[b[i].inner]));
        } else if t.dom().contains(id) {
            assert(u.dom().contains(id));
        } else {
            assert(rest[rest.len() - 1 - (i - b.len())] == free[free.len() - 1 - (i - a.len())]);
        }
    }
    assert forall|id: usize| #[trigger] t.dom().contains(id) implies v.dom().contains(id) && (named(
        a,
        id,
    ) || v[id] == t[id]) by {
        assert(u.dom().contains(id));
        if named(b, id) && !named(a, id) {
            let i = choose|i: int| 0 <= i < b.len() && (#[trigger] b[i]).inner == id;
            if i < a.len() {
                assert(a[i] == b[i]);
            }
        }
    }
    assert forall|id: usize| #[trigger] v.dom().contains(id) implies t.dom().contains(id) || named(
        c,
        id,
    ) by {
        if u.dom().contains(id) && named(b, id) {
            let i = choose|i: int| 0 <= i < b.len() && (#[trigger] b[i]).inner == id;
            assert(c[i] == b[i]);
        }
    }
}

/// Appending one token is growing.
pub proof fn lemma_append_grows(
    old: &SequenceState,
    new: &SequenceState,
    t: &ChunkTable,
    u: &ChunkTable,
    free: Seq<u32>,
)
    requires
        old.live(t),
        old.needs_new_chunk(t) ==> {
            let h = new.chunks@.last();
            &&& free.len() > 0
            &&& new.chunks@ == old.chunks@.push(h)
            &&& !t@.dom().contains(h.inner)
            &&& u@ == t@.insert(
                h.inner,
                SharedChunk {
                    chunk: ChunkRef { len: 1, ..ChunkRef::fresh(free.last()) },
                    refs: 1,
                },
            )
        },
        !old.needs_new_chunk(t) ==> {
            let h = old.chunks@.last();
            &&& new.chunks@ == old.chunks@
            &&& u@ == chunk::with_chunk(
                t@,
                h.inner,
                ChunkRef { len: u@[h.inner].chunk.len, ..h.chunk(t) },
            )
        },
    ensures
        grown(t@, u@, old.chunks@, new.chunks@, free),
{
    let (a, b) = (old.chunks@, new.chunks@);
    assert(b.take(a.len() as int) =~= a);
    assert forall|i: int| 0 <= i < a.len() implies same_but_len(
        u@[(#[trigger] a[i]).inner],
        t@[a[i].inner],
    ) by {
        assert(t@.dom().contains(a[i].inner));
    }
    if old.needs_new_chunk(t) {
        assert(b[b.len() - 1] == b.last());
    } else {
        assert(a[a.len() - 1] == a.last());
    }
}

/// The next chunk of a packed sequence that grows to `len` tokens is one of those
/// counted.
pub proof fn lemma_opening_counted(seq: &SequenceState, t: &ChunkTable, free: nat, len: int)
    requires
        seq.packed(t),
        seq.needs_new_chunk(t),
        free > 0,
        seq.seq_len < len,
    ensures
        chunks_opened(seq, free, len) >= 1,
{
    let ct = seq.chunk_tokens as int;
    let n = seq.chunks@.len() as int;
    law_packed_room(seq, t);
    crate::arith::lemma_ceil_div(len, ct);
    let q = len / ct;
    vstd::arithmetic::div_mod::lemma_fundamental_div_mod(len, ct);
    assert(crate::arith::ceil_div(len, ct) > n) by {
        if crate::arith::ceil_div(len, ct) <= n {
            assert(q <= n);
            assert(ct * q <= n * ct) by (nonlinear_arith)
                requires
                    q <= n,
                    ct > 0,
            ;
            if len % ct != 0 {
                assert(ct * q + ct <= n * ct) by (nonlinear_arith)
                    requires
                        q + 1 <= n,
                        ct > 0,
                ;
            }
        }
    }
}

proof fn lemma_full_tokens(t: Map<usize, SharedChunk>, chunks: Seq<ChunkHandle>, per_chunk: u32)
    requires
        forall|i: int|
            0 <= i < chunks.len() ==> t[(#[trigger] chunks[i]).inner].chunk.len == per_chunk,
    ensures
        tokens_in(t, chunks) == chunks.len() * per_chunk,
    decreases chunks.len(),
{
    if chunks.len() > 0 {
        let front = chunks.drop_last();
        assert(forall|i: int| #![trigger front[i]] 0 <= i < front.len() ==> front[i] == chunks[i]);
        lemma_full_tokens(t, front, per_chunk);
        assert(chunks.last() == chunks[chunks.len() - 1]);
        let n = chunks.len() as int;
        let k = per_chunk as int;
        assert((n - 1) * k + k == n * k) by (nonlinear_arith);
    }
}

/// A valid reset is valid for every prefix of the chunk list.
proof fn lemma_reset_ok_prefix(
    t: Map<usize, SharedChunk>,
    free: Seq<u32>,
    capacity: nat,
    chunks: Seq<ChunkHandle>,
)
    requires
        reset_ok(t, free, capacity, chunks),
    ensures
        forall|k: int|
            0 <= k <= chunks.len() ==> reset_ok(t, free, capacity, #[trigger] chunks.take(k)),
    decreases chunks.len(),
{
    assert(chunks.take(chunks.len() as int) =~= chunks);
    if chunks.len() > 0 {
        lemma_reset_ok_prefix(t, free, capacity, chunks.drop_last());
        assert forall|k: int| 0 <= k <= chunks.len() implies reset_ok(
            t,
            free,
            capacity,
            #[trigger] chunks.take(k),
        ) by {
            if k < chunks.len() {
                assert(chunks.take(k) =~= chunks.drop_last().take(k));
            }
        }
    }
}

} // verus!
