//! Sequence state across passes: appending a prompt, checkpoints, resets.

use vstd::prelude::*;
use crate::config::{ModelConfig, RecurrentLayerKind};
use crate::error::{missing, ModelError};
use crate::paged_kv::checkpoint;
use crate::paged_kv::checkpoint::{restore_checkpoint, save_checkpoint};
use crate::paged_kv::chunk::{ChunkCopy, ChunkTable};
use crate::paged_kv::geometry;
use crate::paged_kv::sequence;
use crate::paged_kv::sequence::SequenceState;
use crate::paged_kv::slots::{HipError, PageAllocator, PoolState, RecurrentCheckpointPool};

verus! {

// ---- appending a prompt chunk ----

/// Tokens a packed sequence can still take before the pool runs dry.
pub open spec fn room(seq: &SequenceState, free: nat) -> int {
    (seq.chunks@.len() + free) * seq.chunk_tokens - seq.seq_len
}

/// Appends `n` tokens at consecutive positions. When the pool runs dry the tokens
/// that still fitted stay appended.
pub fn append_chunk(
    seq: &mut SequenceState,
    table: &mut ChunkTable,
    allocator: &mut PageAllocator,
    start_pos: u32,
    n: usize,
) -> (r: Result<(), HipError>)
    requires
        old(seq).packed(old(table)),
        old(allocator).wf(),
        old(seq).seq_len + n <= u32::MAX,
        old(seq).kv_version + sequence::chunks_opened(
            old(seq),
            old(allocator)@.free.len(),
            old(seq).seq_len + n,
        ) <= u32::MAX,
        start_pos + n <= i32::MAX,
    ensures
        final(seq).packed(final(table)),
        final(allocator).wf(),
        final(allocator).same_setup(old(allocator)),
        final(seq).same_rest(old(seq)),
        sequence::owns(old(seq), old(table), old(allocator)@) ==> sequence::owns(
            final(seq),
            final(table),
            final(allocator)@,
        ),
        r is Err <==> n > room(old(seq), old(allocator)@.free.len()),
        r matches Err(e) ==> e == HipError::OutOfMemory,
        ({
            let fits = room(old(seq), old(allocator)@.free.len());
            let done = if n <= fits {
                n as int
            } else {
                fits
            };
            &&& final(seq).seq_len == old(seq).seq_len + done
            &&& final(seq).positions@ == old(seq).positions@ + Seq::new(
                done as nat,
                |t: int| (start_pos + t) as i32,
            )
        }),
        ({
            let opened = final(seq).chunks@.len() - old(seq).chunks@.len();
            &&& opened == sequence::chunks_opened(
                old(seq),
                old(allocator)@.free.len(),
                old(seq).seq_len + n,
            )
            &&& sequence::grown(
                old(table)@,
                final(table)@,
                old(seq).chunks@,
                final(seq).chunks@,
                old(allocator)@.free,
            )
            &&& final(seq).kv_version == old(seq).kv_version + opened
            &&& final(allocator)@ == (PoolState {
                free: old(allocator)@.free.take(old(allocator)@.free.len() - opened),
                ..old(allocator)@
            })
        }),
{
    let ghost free0 = old(allocator)@.free;
    let ghost fits = room(old(seq), free0.len());
    let mut t: usize = 0;
    proof {
        sequence::law_packed_room(seq, table);
        let c = old(seq).chunks@.len() as int;
        let f = free0.len() as int;
        let ct = old(seq).chunk_tokens as int;
        assert((c + f) * ct == c * ct + f * ct) by (nonlinear_arith);
        assert(f * ct >= 0) by (nonlinear_arith)
            requires
                f >= 0,
                ct >= 0,
        ;
        assert(free0.take(free0.len() as int) =~= free0);
        sequence::lemma_grown_refl(table@, seq.chunks@, free0);
        assert(seq.positions@ =~= old(seq).positions@ + Seq::new(0, |k: int| (start_pos + k) as i32));
        assert(allocator@ =~= (PoolState { free: free0, ..old(allocator)@ }));
    }
    while t < n
        invariant
            t <= n,
            seq.packed(table),
            allocator.wf(),
            allocator.same_setup(old(allocator)),
            seq.same_rest(old(seq)),
            sequence::owns(old(seq), old(table), old(allocator)@) ==> sequence::owns(
                seq,
                table,
                allocator@,
            ),
            old(seq).seq_len + n <= u32::MAX,
            old(seq).kv_version + sequence::chunks_opened(
                old(seq),
                free0.len(),
                old(seq).seq_len + n,
            ) <= u32::MAX,
            start_pos + n <= i32::MAX,
            free0 == old(allocator)@.free,
            fits == room(old(seq), free0.len()),
            t <= fits,
            seq.seq_len == old(seq).seq_len + t,
            seq.positions@ == old(seq).positions@ + Seq::new(
                t as nat,
                |k: int| (start_pos + k) as i32,
            ),
            sequence::grown(old(table)@, table@, old(seq).chunks@, seq.chunks@, free0),
            seq.kv_version == old(seq).kv_version + (seq.chunks@.len() - old(seq).chunks@.len()),
            allocator@ == (PoolState {
                free: free0.take(free0.len() - (seq.chunks@.len() - old(seq).chunks@.len())),
                ..old(allocator)@
            }),
        decreases n - t,
    {
        let ghost c = seq.chunks@.len() as int;
        let ghost f = allocator@.free.len() as int;
        let ghost ct = seq.chunk_tokens as int;
        let ghost prev = *seq;
        let ghost prev_table = *table;
        let ghost prev_free = allocator@.free;
        proof {
            sequence::law_packed_room(seq, table);
            assert((c + f) * ct == c * ct + f * ct) by (nonlinear_arith);
            assert(f > 0 ==> f * ct >= ct) by (nonlinear_arith)
                requires
                    ct > 0,
            ;
            if seq.needs_new_chunk(table) {
                sequence::lemma_opening_counted(seq, table, 1, old(seq).seq_len + n);
            }
        }
        match seq.append_token(table, start_pos as i32 + t as i32, allocator) {
            Err(e) => {
                return Err(e);
            },
            Ok(_) => {},
        }
        proof {
            assert(seq.positions@ =~= old(seq).positions@ + Seq::new(
                (t + 1) as nat,
                |k: int| (start_pos + k) as i32,
            ));
            let opened = seq.chunks@.len() - old(seq).chunks@.len();
            assert(allocator@.free =~= free0.take(free0.len() - opened));
            sequence::lemma_append_grows(&prev, seq, &prev_table, table, prev_free);
            sequence::lemma_grown_trans(
                old(table)@,
                prev_table@,
                table@,
                old(seq).chunks@,
                prev.chunks@,
                seq.chunks@,
                free0,
            );
        }
        t += 1;
    }
    proof {
        sequence::law_packed_chunk_count(seq, table);
    }
    Ok(())
}

// ---- checkpoints ----

/// The one-slot ring of recurrent-state checkpoints.
pub struct Checkpoints {
    pub pool: Option<RecurrentCheckpointPool>,
    pub last_slot: Option<u32>,
}

impl Checkpoints {
    /// The pool, once made, has a single slot: taken by the last checkpoint or free.
    pub open spec fn wf(&self) -> bool {
        match self.pool {
            None => self.last_slot is None,
            Some(p) => {
                &&& p.wf()
                &&& p@.capacity == 1
                &&& match self.last_slot {
                    None => p@.free == seq![0u32],
                    Some(s) => s == 0 && p@.free == Seq::<u32>::empty(),
                }
            },
        }
    }

    /// Address and size of the slot: those of the pool, or those that a new pool
    /// at `vram` would have.
    pub open spec fn slot_at(&self, config: &ModelConfig, vram: usize) -> (nat, nat) {
        match self.pool {
            Some(p) => (p@.base, p@.slot_bytes),
            None => (vram as nat, geometry::recurrent_bytes_of(config)),
        }
    }

    /// Address of the host mirror: that of the pool, or `cpu` for a new one.
    pub open spec fn host_at(&self, cpu: usize) -> nat {
        match self.pool {
            Some(p) => p.cpu_base(),
            None => cpu as nat,
        }
    }

    /// No checkpoint yet.
    pub fn new() -> (r: Self)
        ensures
            r.wf(),
            r.pool is None,
    {
        Checkpoints { pool: None, last_slot: None }
    }

    /// Saves the recurrent states, overwriting the previous checkpoint. The pool is
    /// made on the first call, over the two buffers given. A slot is always found.
    pub fn save_recurrent_checkpoint(
        &mut self,
        config: &ModelConfig,
        vram: usize,
        cpu: usize,
        states: &[usize],
    ) -> (r: Result<(u32, Vec<ChunkCopy>), HipError>)
        requires
            old(self).wf(),
            states@.len() > 0,
            old(self).pool is None ==> {
                &&& config.linear_num_heads as nat * config.linear_key_head_dim as nat
                    * config.linear_value_head_dim as nat <= usize::MAX
                &&& vram + geometry::recurrent_bytes_of(config) <= usize::MAX
                &&& cpu + geometry::recurrent_bytes_of(config) <= usize::MAX
            },
        ensures
            final(self).wf(),
            final(self).pool is Some,
            final(self).last_slot == Some(0u32),
            final(self).slot_at(config, vram) == old(self).slot_at(config, vram),
            final(self).host_at(cpu) == old(self).host_at(cpu),
            r is Ok,
            r matches Ok((slot, copies)) ==> {
                let (base, bytes) = old(self).slot_at(config, vram);
                slot == 0 && copies@ == checkpoint::save_plan(base, bytes, states@)
            },
    {
        let (taken, last) = (self.pool.take(), self.last_slot);
        let mut pool = match taken {
            Some(p) => p,
            None => {
                let p = RecurrentCheckpointPool::new(config, 1, vram, cpu);
                assert(p@.free =~= seq![0u32]);
                p
            },
        };
        match last {
            Some(prev) => {
                pool.free(prev);
                assert(pool@.free =~= seq![0u32]);
            },
            None => {},
        }
        let ghost before = pool@;
        let saved = save_checkpoint(&mut pool, states);
        assert(pool@.free =~= Seq::<u32>::empty());
        assert(0 * before.slot_bytes == 0) by (nonlinear_arith);
        self.pool = Some(pool);
        self.last_slot = Some(0);
        saved
    }

    /// Plans putting back the states saved in `slot`.
    pub fn restore_recurrent_checkpoint(&self, slot: u32, states: &[usize]) -> (r: Result<
        Vec<ChunkCopy>,
        ModelError,
    >)
        requires
            self.wf(),
            states@.len() > 0,
            self.pool is Some ==> slot == 0,
        ensures
            r is Err <==> self.pool is None,
            r matches Err(e) ==> e.is_missing("checkpoint_pool not initialized"@),
            r matches Ok(copies) ==> copies@ == checkpoint::restore_plan(
                self.pool->0@.base,
                self.pool->0@.slot_bytes,
                states@,
            ),
    {
        match &self.pool {
            None => Err(missing("checkpoint_pool not initialized")),
            Some(pool) => {
                assert(pool@.addr(0) == pool@.base);
                Ok(restore_checkpoint(pool, slot, states))
            },
        }
    }
}

// ---- reset ----

/// How many elements of each recurrent buffer are zeroed by a reset.
#[derive(Clone, Copy, Debug, PartialEq, Eq, Structural)]
pub struct ResetLengths {
    pub recurrent: usize,
    pub conv: usize,
    pub mamba: Option<MambaLengths>,
}

#[derive(Clone, Copy, Debug, PartialEq, Eq, Structural)]
pub struct MambaLengths {
    pub ssm: usize,
    pub conv: usize,
}

/// Width of the fused query, key and value projection of a linear-attention layer.
pub open spec fn fused_width(config: &ModelConfig) -> nat {
    config.linear_num_heads as nat * config.linear_key_head_dim as nat * 2
        + config.linear_num_value_heads as nat * config.linear_value_head_dim as nat
}

/// Elements of one layer's recurrent state: a matrix per key head.
pub open spec fn recurrent_elements(config: &ModelConfig) -> nat {
    config.linear_num_heads as nat * config.linear_key_head_dim as nat
        * config.linear_value_head_dim as nat
}

/// A checkpoint slot holds the recurrent states of all layers, and nothing else.
pub proof fn law_states_fill_slot(config: &ModelConfig)
    ensures
        geometry::recurrent_bytes_of(config) == config.recurrent_layers() * (recurrent_elements(
            config,
        ) * 4),
{
    let (n, e) = (config.recurrent_layers() as int, recurrent_elements(config) as int);
    assert(n * e * 4 == n * (e * 4)) by (nonlinear_arith);
}

/// Elements of one layer's convolution history.
pub open spec fn conv_elements(config: &ModelConfig) -> nat {
    fused_width(config) * (config.linear_conv_kernel_dim - 1) as nat
}

/// The lengths fit the machine and no kernel is empty.
pub open spec fn lengths_fit(config: &ModelConfig) -> bool {
    &&& config.linear_conv_kernel_dim > 0
    &&& config.linear_num_heads as nat * config.linear_key_head_dim as nat <= usize::MAX
    &&& config.linear_num_value_heads as nat * config.linear_value_head_dim as nat <= usize::MAX
    &&& fused_width(config) <= usize::MAX
    &&& recurrent_elements(config) <= usize::MAX
    &&& conv_elements(config) <= usize::MAX
    &&& config.recurrent_kind matches RecurrentLayerKind::Mamba2 {
        num_heads,
        head_dim,
        state_dim,
        conv_kernel,
        conv_dim,
        ..
    } ==> {
        &&& conv_kernel > 0
        &&& num_heads as nat * head_dim as nat <= usize::MAX
        &&& num_heads as nat * head_dim as nat * state_dim as nat <= usize::MAX
        &&& conv_dim as nat * (conv_kernel - 1) as nat <= usize::MAX
    }
}

/// Lengths of the zeroed buffers.
pub open spec fn reset_lengths_of(config: &ModelConfig) -> ResetLengths {
    ResetLengths {
        recurrent: recurrent_elements(config) as usize,
        conv: conv_elements(config) as usize,
        mamba: match config.recurrent_kind {
            RecurrentLayerKind::Mamba2 {
                num_heads,
                head_dim,
                state_dim,
                conv_kernel,
                conv_dim,
                ..
            } => Some(
                MambaLengths {
                    ssm: (num_heads as nat * head_dim as nat * state_dim as nat) as usize,
                    conv: (conv_dim as nat * (conv_kernel - 1) as nat) as usize,
                },
            ),
            _ => None,
        },
    }
}

/// Computes how much of each recurrent buffer a reset zeroes.
pub fn reset_lengths(config: &ModelConfig) -> (r: ResetLengths)
    requires
        lengths_fit(config),
    ensures
        r == reset_lengths_of(config),
{
    let fused: usize = config.linear_num_heads * config.linear_key_head_dim * 2
        + config.linear_num_value_heads * config.linear_value_head_dim;
    let conv: usize = fused * (config.linear_conv_kernel_dim - 1);
    let recurrent: usize = config.linear_num_heads * config.linear_key_head_dim
        * config.linear_value_head_dim;
    let mamba = match config.recurrent_kind {
        RecurrentLayerKind::Mamba2 { num_heads, head_dim, state_dim, conv_kernel, conv_dim, .. } => {
            Some(
                MambaLengths {
                    ssm: num_heads * head_dim * state_dim,
                    conv: conv_dim * (conv_kernel - 1),
                },
            )
        },
        _ => None,
    };
    ResetLengths { recurrent, conv, mamba }
}

/// The paged side of a model's state.
pub struct PagedState {
    pub seq_len: u32,
    pub table: ChunkTable,
    pub seq: Option<SequenceState>,
    pub pages: Option<PageAllocator>,
    pub quant: Option<PageAllocator>,
}

/// The quantized slots of a sequence are distinct slots of their pool that are out.
pub open spec fn quant_out(slots: Seq<u32>, pool: PoolState) -> bool {
    &&& slots.no_duplicates()
    &&& forall|i: int|
        0 <= i < slots.len() ==> {
            let slot = #[trigger] slots[i];
            slot < pool.capacity && !pool.free.contains(slot)
        }
}

impl PagedState {
    /// Every slot the sequence holds can go back to its pool.
    pub open spec fn resettable(&self) -> bool {
        &&& self.table.wf()
        &&& self.pages matches Some(p) ==> p.wf()
        &&& self.quant matches Some(q) ==> q.wf()
        &&& self.seq matches Some(s) ==> {
            &&& s.kv_version < u32::MAX
            &&& self.pages matches Some(p) ==> sequence::reset_ok(
                self.table@,
                p@.free,
                p@.capacity,
                s.chunks@,
            )
            &&& self.quant matches Some(q) ==> quant_out(s.quant_slots@, q@)
        }
    }

    /// The sequence of `before` is forgotten: quantized slots are back in their pool,
    /// and so are the slots of chunks that nobody else holds. Without a pool the
    /// slots stay recorded in the sequence.
    pub open spec fn is_reset(&self, before: &PagedState) -> bool {
        &&& self.seq_len == 0
        &&& self.seq is Some <==> before.seq is Some
        &&& self.pages is Some <==> before.pages is Some
        &&& self.quant is Some <==> before.quant is Some
        &&& self.table.wf()
        &&& self.pages matches Some(p) ==> p.wf() && p.same_setup(&before.pages->0)
        &&& self.quant matches Some(q) ==> q.wf() && q.same_setup(&before.quant->0)
        &&& before.seq is None ==> {
            &&& self.table@ == before.table@
            &&& self.pages == before.pages
            &&& self.quant == before.quant
        }
        &&& (before.seq is Some && before.pages is Some) ==> {
            let (s0, s1) = (before.seq->0, self.seq->0);
            let (p0, p1) = (before.pages->0, self.pages->0);
            let (t, free) = sequence::reset_all(before.table@, p0@.free, s0.chunks@);
            &&& s1.chunks@.len() == 0
            &&& s1.seq_len == 0
            &&& s1.positions@.len() == 0
            &&& s1.kv_version == s0.kv_version + 1
            &&& self.table@ == t
            &&& p1@ == (PoolState { free, ..p0@ })
        }
        &&& (before.seq is Some && before.pages is None) ==> {
            let (s0, s1) = (before.seq->0, self.seq->0);
            &&& s1.chunks@ == s0.chunks@
            &&& s1.seq_len == s0.seq_len
            &&& s1.positions@ == s0.positions@
            &&& s1.kv_version == s0.kv_version
            &&& self.table@ == before.table@
        }
        &&& (before.seq is Some && before.quant is Some) ==> {
            let (s0, s1) = (before.seq->0, self.seq->0);
            let (q0, q1) = (before.quant->0, self.quant->0);
            &&& s1.quant_slots@.len() == 0
            &&& q1@ == (PoolState { free: q0@.free + s0.quant_slots@, ..q0@ })
        }
        &&& (before.seq is Some && before.quant is None) ==> self.seq->0.quant_slots@
            == before.seq->0.quant_slots@
        &&& before.seq is Some ==> {
            &&& self.seq->0.chunk_tokens == before.seq->0.chunk_tokens
            &&& self.seq->0.staging_buffer == before.seq->0.staging_buffer
        }
    }

    /// Forgets the sequence: quantized slots return first, then the chunks.
    /// Without a pool its slots stay recorded in the sequence.
    pub fn reset_state(&mut self)
        requires
            old(self).resettable(),
        ensures
            final(self).is_reset(old(self)),
    {
        self.seq_len = 0;
        if let Some(seq) = self.seq.as_mut() {
            if let Some(quant) = self.quant.as_mut() {
                seq.free_quant_slots(quant);
            }
            if let Some(pages) = self.pages.as_mut() {
                seq.reset(&mut self.table, pages);
            }
        }
    }
}

} // verus!
