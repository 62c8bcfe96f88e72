//! Several GPUs: peer access, per-GPU attention buffers, and keeping the workers'
//! paged KV in step with GPU 0.

use vstd::prelude::*;
use crate::arith;
use crate::arith::div_ceil;
use crate::config::ModelConfig;
use crate::ops;
use crate::ops::{blocks_for, WeightFormat};
use crate::paged_kv::chunk::ChunkTable;
use crate::paged_kv::geometry;
use crate::paged_kv::sequence;
use crate::paged_kv::sequence::SequenceState;
use crate::paged_kv::slots;
use crate::paged_kv::slots::{DeviceId, HipError, PageAllocator, PoolState};

verus! {

/// A worker's paged KV.
pub struct WorkerPages {
    pub table: ChunkTable,
    pub allocator: PageAllocator,
    pub seq: SequenceState,
}

impl WorkerPages {
    /// The sequence is packed and owns its chunks in the worker's pool.
    pub open spec fn wf(&self) -> bool {
        &&& self.seq.packed(&self.table)
        &&& self.allocator.wf()
        &&& sequence::owns(&self.seq, &self.table, self.allocator@)
    }

    /// The version counter has room for every chunk opened while growing to `len`
    /// tokens.
    pub open spec fn has_versions_for(&self, len: int) -> bool {
        self.seq.kv_version + sequence::chunks_opened(&self.seq, self.allocator@.free.len(), len)
            <= u32::MAX
    }

    /// Tokens the worker can hold in all.
    pub open spec fn capacity(&self) -> int {
        (self.seq.chunks@.len() + self.allocator@.free.len()) * self.seq.chunk_tokens
    }
}

/// `new` is `old` grown by GPU 0's positions until it holds `len` tokens, if it did
/// not already: chunks it had stay in their slots, and new ones take the next free
/// slots in turn.
pub open spec fn caught_up(old: &WorkerPages, new: &WorkerPages, positions: Seq<i32>, len: int) -> bool {
    let opened = new.seq.chunks@.len() - old.seq.chunks@.len();
    &&& new.wf()
    &&& new.seq.same_rest(&old.seq)
    &&& new.seq.seq_len == if old.seq.seq_len >= len {
        old.seq.seq_len as int
    } else {
        len
    }
    &&& new.seq.positions@ == if old.seq.seq_len >= len {
        old.seq.positions@
    } else {
        old.seq.positions@ + positions.subrange(old.seq.seq_len as int, len)
    }
    &&& sequence::grown(
        old.table@,
        new.table@,
        old.seq.chunks@,
        new.seq.chunks@,
        old.allocator@.free,
    )
    &&& new.seq.kv_version == old.seq.kv_version + opened
    &&& new.allocator.same_setup(&old.allocator)
    &&& new.allocator@ == (PoolState {
        free: old.allocator@.free.take(old.allocator@.free.len() - opened),
        ..old.allocator@
    })
}

/// Growing step by step is growing at once.
proof fn lemma_caught_up_trans(
    a: &WorkerPages,
    b: &WorkerPages,
    c: &WorkerPages,
    positions: Seq<i32>,
    m: int,
    n: int,
)
    requires
        0 <= m <= n <= positions.len(),
        caught_up(a, b, positions, m),
        caught_up(b, c, positions, n),
    ensures
        caught_up(a, c, positions, n),
{
    if a.seq.seq_len < n {
        assert(c.seq.positions@ =~= a.seq.positions@ + positions.subrange(
            a.seq.seq_len as int,
            n,
        ));
    }
    sequence::lemma_grown_trans(
        a.table@,
        b.table@,
        c.table@,
        a.seq.chunks@,
        b.seq.chunks@,
        c.seq.chunks@,
        a.allocator@.free,
    );
    assert(c.allocator@.free =~= a.allocator@.free.take(
        a.allocator@.free.len() - (c.seq.chunks@.len() - a.seq.chunks@.len()),
    ));
}

proof fn lemma_caught_up_refl(a: &WorkerPages, positions: Seq<i32>, m: int)
    requires
        a.wf(),
        0 <= m <= a.seq.seq_len,
    ensures
        caught_up(a, a, positions, m),
{
    sequence::lemma_grown_refl(a.table@, a.seq.chunks@, a.allocator@.free);
    assert(a.allocator@.free.take(a.allocator@.free.len() as int) =~= a.allocator@.free);
    assert(a.allocator@ =~= (PoolState {
        free: a.allocator@.free.take(a.allocator@.free.len() as int),
        ..a.allocator@
    }));
}

/// A packed sequence lacks tokens up to `len` in chunk `idx` exactly when the chunk
/// is missing or too short.
proof fn lemma_behind(seq: &SequenceState, t: &ChunkTable, idx: int, len: u32)
    requires
        seq.packed(t),
        0 <= idx,
        0 < len <= seq.chunk_tokens,
    ensures
        (seq.chunks@.len() <= idx || seq.chunks@[idx].chunk(t).len < len) <==> seq.seq_len < idx
            * seq.chunk_tokens + len,
{
    let n = seq.chunks@.len() as int;
    let ct = seq.chunk_tokens as int;
    sequence::law_packed_room(seq, t);
    if n <= idx {
        arith::lemma_mul_mono(n, idx, ct);
    } else {
        sequence::law_packed_len(seq, t, idx);
    }
}

/// Brings a worker up to chunk `idx` with `len` tokens in it, mirroring GPU 0's
/// positions. Fails when the worker's pool cannot hold them; the tokens that fitted
/// stay.
fn catch_up(w: &mut WorkerPages, positions: &Vec<i32>, idx: usize, len: u32) -> (r: Result<
    (),
    HipError,
>)
    requires
        old(w).wf(),
        0 < len <= old(w).seq.chunk_tokens,
        idx * old(w).seq.chunk_tokens + len <= positions@.len(),
        positions@.len() <= u32::MAX,
        old(w).has_versions_for(positions@.len() as int),
    ensures
        r is Err <==> idx * old(w).seq.chunk_tokens + len > old(w).capacity(),
        r matches Err(e) ==> e == HipError::OutOfMemory,
        r is Ok ==> caught_up(
            old(w),
            final(w),
            positions@,
            idx * old(w).seq.chunk_tokens + len,
        ),
        r is Err ==> caught_up(old(w), final(w), positions@, old(w).capacity()),
{
    let ghost ct = w.seq.chunk_tokens as int;
    let ghost target = idx * ct + len;
    let ghost before = *w;
    proof {
        lemma_caught_up_refl(&before, positions@, w.seq.seq_len as int);
        sequence::law_packed_room(&w.seq, &w.table);
        let c = w.seq.chunks@.len() as int;
        let f = w.allocator@.free.len() as int;
        assert((c + f) * ct == c * ct + f * ct) by (nonlinear_arith);
        assert(f * ct >= 0) by (nonlinear_arith)
            requires
                f >= 0,
                ct >= 0,
        ;
        lemma_behind(&w.seq, &w.table, idx as int, len);
    }
    while w.seq.chunks.len() <= idx || w.seq.chunks[idx].len(&w.table) < len
        invariant
            before == *old(w),
            before.wf(),
            w.wf(),
            ct == before.seq.chunk_tokens,
            ct == w.seq.chunk_tokens,
            ct > 0,
            0 < len <= ct,
            target == idx * ct + len,
            target <= positions@.len() <= u32::MAX,
            before.has_versions_for(positions@.len() as int),
            before.seq.seq_len <= w.seq.seq_len <= before.capacity(),
            w.seq.seq_len > before.seq.seq_len ==> w.seq.seq_len <= target,
            caught_up(&before, w, positions@, w.seq.seq_len as int),
            (w.seq.chunks@.len() <= idx || w.seq.chunks@[idx as int].chunk(&w.table).len < len)
                <==> w.seq.seq_len < target,
        decreases target - w.seq.seq_len,
    {
        let ghost c = w.seq.chunks@.len() as int;
        let ghost f = w.allocator@.free.len() as int;
        let ghost prev = *w;
        proof {
            sequence::law_packed_room(&w.seq, &w.table);
            assert((c + f) * ct == c * ct + f * ct) by (nonlinear_arith);
            assert(f > 0 ==> f * ct >= ct) by (nonlinear_arith)
                requires
                    ct > 0,
            ;
            if w.seq.needs_new_chunk(&w.table) {
                sequence::lemma_opening_counted(
                    &w.seq,
                    &w.table,
                    1,
                    positions@.len() as int,
                );
            }
        }
        let at: usize = w.seq.positions.len();
        let pos: i32 = positions[at];
        let appended = w.seq.append_token(&mut w.table, pos, &mut w.allocator);
        proof {
            if appended is Ok {
                sequence::lemma_append_grows(
                    &prev.seq,
                    &w.seq,
                    &prev.table,
                    &w.table,
                    prev.allocator@.free,
                );
            } else {
                sequence::lemma_grown_refl(w.table@, w.seq.chunks@, prev.allocator@.free);
            }
            let opened = w.seq.chunks@.len() - prev.seq.chunks@.len();
            assert(w.allocator@.free =~= prev.allocator@.free.take(
                prev.allocator@.free.len() - opened,
            ));
            if appended is Ok {
                assert(w.seq.positions@ =~= prev.seq.positions@ + positions@.subrange(
                    prev.seq.seq_len as int,
                    w.seq.seq_len as int,
                ));
            }
            assert(caught_up(&prev, w, positions@, w.seq.seq_len as int));
            lemma_caught_up_trans(
                &before,
                &prev,
                w,
                positions@,
                prev.seq.seq_len as int,
                w.seq.seq_len as int,
            );
            lemma_behind(&w.seq, &w.table, idx as int, len);
        }
        match appended {
            Err(e) => {
                return Err(e);
            },
            Ok(_) => {},
        }
    }
    Ok(())
}

proof fn lemma_capacity_kept(a: &WorkerPages, b: &WorkerPages, positions: Seq<i32>, m: int)
    requires
        caught_up(a, b, positions, m),
    ensures
        b.capacity() == a.capacity(),
{
}

/// A GPU of the context.
pub struct GpuWorker {
    pub device: DeviceId,
    /// Last value its completion flag was asked to take.
    pub compute_done_seq: u32,
    /// Set by `init_attn_buffers`.
    pub pages: Option<WorkerPages>,
}

/// All GPUs.
pub struct MultiGpuContext {
    pub num_devices: usize,
    pub workers: Vec<GpuWorker>,
}

/// A chunk on its way from GPU 0 to a worker.
#[derive(Clone, Copy, Debug, PartialEq, Eq, Structural)]
pub struct PeerCopy {
    pub gpu: usize,
    pub dst: usize,
    pub src: usize,
    pub bytes: usize,
}

/// A completion flag and the value it must reach.
#[derive(Clone, Copy, Debug, PartialEq, Eq, Structural)]
pub struct FlagSignal {
    pub gpu: usize,
    pub value: u32,
}

/// What a broadcast does: copies, chunk by chunk, then one flag per worker.
pub struct BroadcastPlan {
    pub rounds: Vec<Vec<PeerCopy>>,
    pub signals: Vec<FlagSignal>,
}

/// Tokens that the first `c` chunks of a packed sequence hold.
pub open spec fn tokens_by(seq: &SequenceState, c: int) -> int {
    if c * seq.chunk_tokens <= seq.seq_len {
        c * seq.chunk_tokens
    } else {
        seq.seq_len as int
    }
}

/// Copies of chunk `c` to the workers among the first `n` GPUs.
pub open spec fn round_of(
    ws: Seq<GpuWorker>,
    gpu0: int,
    c: int,
    src: nat,
    bytes: nat,
    n: int,
) -> Seq<PeerCopy>
    decreases n,
{
    if n <= 0 {
        Seq::empty()
    } else {
        let rest = round_of(ws, gpu0, c, src, bytes, n - 1);
        if n - 1 == gpu0 {
            rest
        } else {
            let p = ws[n - 1].pages->0;
            rest.push(
                PeerCopy {
                    gpu: (n - 1) as usize,
                    dst: p.allocator@.addr(
                        p.seq.chunks@[c].chunk(&p.table).slot_index as nat,
                    ) as usize,
                    src: src as usize,
                    bytes: bytes as usize,
                },
            )
        }
    }
}

/// Flags of the workers among the first `n` GPUs, each one past its last value.
pub open spec fn signals_of(ws: Seq<GpuWorker>, gpu0: int, n: int) -> Seq<FlagSignal>
    decreases n,
{
    if n <= 0 {
        Seq::empty()
    } else if n - 1 == gpu0 {
        signals_of(ws, gpu0, n - 1)
    } else {
        signals_of(ws, gpu0, n - 1).push(
            FlagSignal {
                gpu: (n - 1) as usize,
                value: (ws[n - 1].compute_done_seq + 1) as u32,
            },
        )
    }
}

impl MultiGpuContext {
    pub open spec fn wf(&self) -> bool {
        self.workers@.len() == self.num_devices && self.num_devices <= u32::MAX
    }

    /// Every worker but `gpu0` has paged KV with chunks of `chunk_tokens` tokens, and
    /// its counters have room to grow to `len` tokens.
    pub open spec fn paged_for(&self, chunk_tokens: int, len: int, gpu0: int) -> bool {
        forall|g: int|
            0 <= g < self.num_devices && g != gpu0 ==> {
                let w = #[trigger] self.workers@[g];
                &&& w.pages is Some
                &&& w.pages->0.wf()
                &&& w.pages->0.seq.chunk_tokens == chunk_tokens
                &&& w.pages->0.has_versions_for(len)
                &&& w.compute_done_seq < u32::MAX
            }
    }

    /// The workers can be brought in step with `seq`.
    pub open spec fn paged(&self, seq: &SequenceState, gpu0: int) -> bool {
        self.paged_for(seq.chunk_tokens as int, seq.seq_len as int, gpu0)
    }

    /// Some worker's pool cannot hold `len` tokens.
    pub open spec fn lacks_room(&self, len: int, gpu0: int) -> bool {
        exists|g: int|
            0 <= g < self.num_devices && g != gpu0 && len > (
            #[trigger] self.workers@[g]).pages->0.capacity()
    }

    /// The workers, caught up to `len` tokens where `done` says so.
    pub open spec fn grown_to(
        &self,
        other: &MultiGpuContext,
        gpu0: int,
        positions: Seq<i32>,
        g: int,
        len: int,
    ) -> bool {
        let (a, b) = (other.workers@[g], self.workers@[g]);
        &&& a.device == b.device
        &&& a.compute_done_seq == b.compute_done_seq
        &&& g == gpu0 ==> a == b
        &&& g != gpu0 ==> b.pages is Some && caught_up(&a.pages->0, &b.pages->0, positions, len)
    }

    /// Worker `g` grew by a part of GPU 0's positions, maybe by none.
    pub open spec fn grown_some(
        &self,
        other: &MultiGpuContext,
        gpu0: int,
        positions: Seq<i32>,
        g: int,
    ) -> bool {
        self.grown_to(
            other,
            gpu0,
            positions,
            g,
            self.workers@[g].pages->0.seq.seq_len as int,
        )
    }

    /// Workers before `cut` grew to `hi` tokens, the others to `lo`.
    spec fn grown_split(
        &self,
        other: &MultiGpuContext,
        gpu0: int,
        positions: Seq<i32>,
        g: int,
        cut: int,
        hi: int,
        lo: int,
    ) -> bool {
        self.grown_to(
            other,
            gpu0,
            positions,
            g,
            if g < cut {
                hi
            } else {
                lo
            },
        )
    }

    /// Brings every worker's sequence in step with GPU 0's, chunk by chunk.
    fn catch_up_all(&mut self, seq: &SequenceState, table: &ChunkTable, gpu0: usize) -> (r: Result<
        (),
        HipError,
    >)
        requires
            old(self).wf(),
            seq.packed(table),
            old(self).paged(seq, gpu0 as int),
        ensures
            final(self).wf(),
            final(self).num_devices == old(self).num_devices,
            r is Err <==> old(self).lacks_room(seq.seq_len as int, gpu0 as int),
            r matches Err(e) ==> e == HipError::OutOfMemory,
            r is Ok ==> forall|g: int|
                0 <= g < old(self).num_devices ==> #[trigger] final(self).grown_to(
                    old(self),
                    gpu0 as int,
                    seq.positions@,
                    g,
                    seq.seq_len as int,
                ),
            r is Err ==> forall|g: int|
                0 <= g < old(self).num_devices ==> #[trigger] final(self).grown_some(
                    old(self),
                    gpu0 as int,
                    seq.positions@,
                    g,
                ),
    {
        let ghost before = *self;
        let nc: usize = seq.chunks.len();
        let n: usize = self.num_devices;
        let mut c: usize = 0;
        proof {
            assert forall|g: int| 0 <= g < n implies #[trigger] self.grown_to(
                &before,
                gpu0 as int,
                seq.positions@,
                g,
                0,
            ) by {
                if g != gpu0 {
                    lemma_caught_up_refl(&before.workers@[g].pages->0, seq.positions@, 0);
                }
            }
        }
        while c < nc
            invariant
                c <= nc,
                nc == seq.chunks@.len(),
                n == self.num_devices,
                before == *old(self),
                before.num_devices == n,
                before.wf(),
                self.wf(),
                seq.packed(table),
                before.paged(seq, gpu0 as int),
                forall|g: int|
                    0 <= g < n ==> #[trigger] self.grown_to(
                        &before,
                        gpu0 as int,
                        seq.positions@,
                        g,
                        tokens_by(seq, c as int),
                    ),
            decreases nc - c,
        {
            let len: u32 = seq.chunks[c].len(table);
            let ghost t0 = tokens_by(seq, c as int);
            let ghost t1 = tokens_by(seq, c + 1);
            proof {
                sequence::law_packed_len(seq, table, c as int);
                let ct = seq.chunk_tokens as int;
                assert((c + 1) * ct == c * ct + ct) by (nonlinear_arith);
            }
            assert(t1 == c * seq.chunk_tokens + len);
            assert(t0 <= t1 <= seq.seq_len);
            let mut g: usize = 0;
            assert forall|k: int| 0 <= k < n implies #[trigger] self.grown_split(
                &before,
                gpu0 as int,
                seq.positions@,
                k,
                0,
                t1,
                t0,
            ) by {
                assert(self.grown_to(&before, gpu0 as int, seq.positions@, k, t0));
            }
            while g < n
                invariant
                    g <= n,
                    c < nc,
                    nc == seq.chunks@.len(),
                    n == self.num_devices,
                    before == *old(self),
                    before.num_devices == n,
                    before.wf(),
                    self.wf(),
                    seq.packed(table),
                    before.paged(seq, gpu0 as int),
                    len == seq.chunks@[c as int].chunk(table).len,
                    0 < len <= seq.chunk_tokens,
                    t0 == tokens_by(seq, c as int),
                    t1 == tokens_by(seq, c + 1),
                    t1 == c * seq.chunk_tokens + len,
                    0 <= t0 <= t1 <= seq.seq_len,
                    forall|k: int|
                        0 <= k < n ==> #[trigger] self.grown_split(
                            &before,
                            gpu0 as int,
                            seq.positions@,
                            k,
                            g as int,
                            t1,
                            t0,
                        ),
                decreases n - g,
            {
                let ghost mid = *self;
                assert(mid.grown_split(
                    &before,
                    gpu0 as int,
                    seq.positions@,
                    g as int,
                    g as int,
                    t1,
                    t0,
                ));
                if g != gpu0 {
                    let ghost a = before.workers@[g as int].pages->0;
                    let ghost b = mid.workers@[g as int].pages->0;
                    proof {
                        lemma_capacity_kept(&a, &b, seq.positions@, t0);
                    }
                    let res = match &mut self.workers[g].pages {
                        Some(p) => catch_up(p, &seq.positions, c, len),
                        None => Ok(()),
                    };
                    let ghost z = self.workers@[g as int].pages->0;
                    proof {
                        let reached = z.seq.seq_len as int;
                        if res is Ok {
                            lemma_caught_up_trans(&a, &b, &z, seq.positions@, t0, t1);
                        } else {
                            lemma_caught_up_trans(
                                &a,
                                &b,
                                &z,
                                seq.positions@,
                                t0,
                                if b.capacity() >= t0 {
                                    b.capacity()
                                } else {
                                    t0
                                },
                            );
                        }
                        assert forall|k: int| 0 <= k < n && k != g implies #[trigger] self.workers@[k]
                            == mid.workers@[k] by {}
                    }
                    match res {
                        Err(e) => {
                            proof {
                                assert(before.workers@[g as int].pages->0.capacity()
                                    < seq.seq_len);
                                assert(before.lacks_room(seq.seq_len as int, gpu0 as int));
                                assert forall|k: int| 0 <= k < n implies #[trigger] self.grown_some(
                                    &before,
                                    gpu0 as int,
                                    seq.positions@,
                                    k,
                                ) by {
                                    assert(mid.grown_split(
                                        &before,
                                        gpu0 as int,
                                        seq.positions@,
                                        k,
                                        g as int,
                                        t1,
                                        t0,
                                    ));
                                }
                            }
                            return Err(e);
                        },
                        Ok(_) => {},
                    }
                }
                proof {
                    assert forall|k: int| 0 <= k < n implies #[trigger] self.grown_split(
                        &before,
                        gpu0 as int,
                        seq.positions@,
                        k,
                        g + 1,
                        t1,
                        t0,
                    ) by {
                        assert(mid.grown_split(
                            &before,
                            gpu0 as int,
                            seq.positions@,
                            k,
                            g as int,
                            t1,
                            t0,
                        ));
                    }
                }
                g += 1;
            }
            assert forall|k: int| 0 <= k < n implies #[trigger] self.grown_to(
                &before,
                gpu0 as int,
                seq.positions@,
                k,
                tokens_by(seq, c + 1),
            ) by {
                assert(self.grown_split(
                    &before,
                    gpu0 as int,
                    seq.positions@,
                    k,
                    n as int,
                    t1,
                    t0,
                ));
            }
            c += 1;
        }
        proof {
            sequence::law_packed_room(seq, table);
            assert(tokens_by(seq, nc as int) == seq.seq_len);
            assert forall|g: int| 0 <= g < n && g != gpu0 implies seq.seq_len <= (
            #[trigger] before.workers@[g]).pages->0.capacity() by {
                assert(self.grown_to(
                    &before,
                    gpu0 as int,
                    seq.positions@,
                    g,
                    tokens_by(seq, nc as int),
                ));
                let (a, b) = (before.workers@[g].pages->0, self.workers@[g].pages->0);
                lemma_capacity_kept(&a, &b, seq.positions@, seq.seq_len as int);
                sequence::law_packed_room(&b.seq, &b.table);
                let (x, f, ct) = (
                    b.seq.chunks@.len() as int,
                    b.allocator@.free.len() as int,
                    b.seq.chunk_tokens as int,
                );
                assert((x + f) * ct >= x * ct) by (nonlinear_arith)
                    requires
                        f >= 0,
                        ct >= 0,
                ;
            }
        }
        Ok(())
    }
}

/// GPU 0's chunk `c` is copied from here.
pub open spec fn chunk_source(seq: &SequenceState, table: &ChunkTable, pool: PoolState, c: int) -> nat {
    pool.addr(seq.chunks@[c].chunk(table).slot_index as nat)
}

/// The workers can be sent every chunk of GPU 0.
spec fn sendable(ws: Seq<GpuWorker>, gpu0: int, chunks: int) -> bool {
    forall|g: int|
        0 <= g < ws.len() && g != gpu0 ==> {
            let w = #[trigger] ws[g];
            &&& w.pages is Some
            &&& w.pages->0.wf()
            &&& w.pages->0.seq.chunks@.len() >= chunks
        }
}

/// A broadcast that failed: every worker grew by a part of GPU 0's positions, maybe
/// by none.
pub open spec fn broadcast_cut_short(
    before: &MultiGpuContext,
    after: &MultiGpuContext,
    seq: &SequenceState,
    gpu0: int,
) -> bool {
    forall|g: int|
        0 <= g < before.num_devices ==> #[trigger] after.grown_some(
            before,
            gpu0,
            seq.positions@,
            g,
        )
}

/// A broadcast that succeeded: one round of copies per chunk of GPU 0, one signal
/// per worker, and every worker in step. With one GPU there is nothing to do.
pub open spec fn broadcast_done(
    before: &MultiGpuContext,
    after: &MultiGpuContext,
    seq: &SequenceState,
    table: &ChunkTable,
    allocator: &PageAllocator,
    plan: &BroadcastPlan,
) -> bool {
    let gpu0 = allocator.on_device().0 as int;
    let n = before.num_devices as int;
    if n <= 1 {
        &&& *after == *before
        &&& plan.rounds@.len() == 0
        &&& plan.signals@.len() == 0
    } else {
        &&& plan.rounds@.len() == seq.chunks@.len()
        &&& forall|c: int|
            0 <= c < seq.chunks@.len() ==> (#[trigger] plan.rounds@[c])@ == round_of(
                after.workers@,
                gpu0,
                c,
                chunk_source(seq, table, allocator@, c),
                allocator@.slot_bytes,
                n,
            )
        &&& plan.signals@ == signals_of(before.workers@, gpu0, n)
        &&& forall|g: int|
            0 <= g < n ==> {
                let (a, b) = (before.workers@[g], #[trigger] after.workers@[g]);
                &&& g == gpu0 ==> a == b
                &&& g != gpu0 ==> {
                    &&& b.device == a.device
                    &&& b.compute_done_seq == a.compute_done_seq + 1
                    &&& b.pages is Some
                    &&& caught_up(&a.pages->0, &b.pages->0, seq.positions@, seq.seq_len as int)
                }
            }
    }
}

fn plan_round(ws: &Vec<GpuWorker>, gpu0: usize, c: usize, src: usize, bytes: usize) -> (r: Vec<
    PeerCopy,
>)
    requires
        sendable(ws@, gpu0 as int, c + 1),
    ensures
        r@ == round_of(ws@, gpu0 as int, c as int, src as nat, bytes as nat, ws@.len() as int),
{
    let mut r: Vec<PeerCopy> = Vec::new();
    let mut g: usize = 0;
    while g < ws.len()
        invariant
            g <= ws@.len(),
            sendable(ws@, gpu0 as int, c + 1),
            r@ == round_of(ws@, gpu0 as int, c as int, src as nat, bytes as nat, g as int),
        decreases ws@.len() - g,
    {
        if g != gpu0 {
            assert(ws@[g as int].pages is Some);
            match &ws[g].pages {
                Some(p) => {
                    assert(p.seq.chunks@[c as int].chunk(&p.table).slot_index
                        < p.allocator@.capacity);
                    let slot: u32 = p.seq.chunks[c].slot_index(&p.table);
                    let dst: usize = p.allocator.slot_ptr(slot);
                    r.push(PeerCopy { gpu: g, dst, src, bytes });
                },
                None => {},
            }
        }
        g += 1;
    }
    r
}

impl MultiGpuContext {
    /// Copies every chunk of GPU 0 to every worker, growing the workers' sequences
    /// to match, and asks each worker's flag for its next value. Without workers
    /// there is nothing to do. Fails when a worker's pool is too small.
    pub fn broadcast_paged_chunks_to_workers(
        &mut self,
        seq: &SequenceState,
        table: &ChunkTable,
        allocator: &PageAllocator,
    ) -> (r: Result<BroadcastPlan, HipError>)
        requires
            old(self).wf(),
            seq.packed(table),
            allocator.wf(),
            sequence::in_pool(seq, table, allocator@),
            old(self).num_devices > 1 ==> old(self).paged(seq, allocator.on_device().0 as int),
        ensures
            final(self).wf(),
            final(self).num_devices == old(self).num_devices,
            r is Err <==> old(self).num_devices > 1 && old(self).lacks_room(
                seq.seq_len as int,
                allocator.on_device().0 as int,
            ),
            r matches Err(e) ==> e == HipError::OutOfMemory,
            r is Err ==> broadcast_cut_short(
                old(self),
                final(self),
                seq,
                allocator.on_device().0 as int,
            ),
            r matches Ok(plan) ==> broadcast_done(
                old(self),
                final(self),
                seq,
                table,
                allocator,
                &plan,
            ),
    {
        let mut rounds: Vec<Vec<PeerCopy>> = Vec::new();
        let mut signals: Vec<FlagSignal> = Vec::new();
        if self.num_devices <= 1 {
            return Ok(BroadcastPlan { rounds, signals });
        }
        let bytes: usize = allocator.chunk_bytes();
        let gpu0: usize = allocator.device().0 as usize;
        let ghost before = *self;
        match self.catch_up_all(seq, table, gpu0) {
            Err(e) => {
                return Err(e);
            },
            Ok(_) => {},
        }
        let ghost grown = *self;
        let nc: usize = seq.chunks.len();
        let n: usize = self.num_devices;
        proof {
            assert forall|g: int| 0 <= g < n && g != gpu0 implies {
                let w = #[trigger] self.workers@[g];
                &&& w.pages is Some
                &&& w.pages->0.wf()
                &&& w.pages->0.seq.chunks@.len() >= nc
            } by {
                assert(self.grown_to(
                    &before,
                    gpu0 as int,
                    seq.positions@,
                    g,
                    seq.seq_len as int,
                ));
                let p = self.workers@[g].pages->0;
                lemma_enough_chunks(seq, table, &p.seq, &p.table);
            }
            assert(sendable(self.workers@, gpu0 as int, nc as int));
        }
        let mut c: usize = 0;
        while c < nc
            invariant
                c <= nc,
                nc == seq.chunks@.len(),
                *self == grown,
                n == grown.num_devices,
                grown.wf(),
                seq.packed(table),
                allocator.wf(),
                sequence::in_pool(seq, table, allocator@),
                bytes == allocator@.slot_bytes,
                sendable(grown.workers@, gpu0 as int, nc as int),
                rounds@.len() == c,
                forall|k: int|
                    0 <= k < c ==> (#[trigger] rounds@[k])@ == round_of(
                        grown.workers@,
                        gpu0 as int,
                        k,
                        chunk_source(seq, table, allocator@, k),
                        bytes as nat,
                        n as int,
                    ),
            decreases nc - c,
        {
            assert(seq.chunks@[c as int].chunk(table).slot_index < allocator@.capacity);
            let slot: u32 = seq.chunks[c].slot_index(table);
            let src: usize = allocator.slot_ptr(slot);
            assert(sendable(grown.workers@, gpu0 as int, c + 1)) by {
                assert forall|g: int| 0 <= g < grown.workers@.len() && g != gpu0 implies {
                    let w = #[trigger] grown.workers@[g];
                    &&& w.pages is Some
                    &&& w.pages->0.wf()
                    &&& w.pages->0.seq.chunks@.len() >= c + 1
                } by {}
            }
            rounds.push(plan_round(&self.workers, gpu0, c, src, bytes));
            c += 1;
        }
        let mut g: usize = 0;
        assert forall|k: int| 0 <= k < n && k != gpu0 implies (
        #[trigger] before.workers@[k]).compute_done_seq < u32::MAX
            && grown.workers@[k].compute_done_seq == before.workers@[k].compute_done_seq by {
            assert(grown.grown_to(
                &before,
                gpu0 as int,
                seq.positions@,
                k,
                seq.seq_len as int,
            ));
        }
        while g < n
            invariant
                g <= n,
                n == grown.num_devices,
                grown.wf(),
                self.num_devices == n,
                self.workers@.len() == n,
                n == before.num_devices,
                before.wf(),
                forall|k: int|
                    0 <= k < n && k != gpu0 ==> (
                    #[trigger] before.workers@[k]).compute_done_seq < u32::MAX
                        && grown.workers@[k].compute_done_seq
                        == before.workers@[k].compute_done_seq,
                forall|k: int|
                    0 <= k < n && (k >= g || k == gpu0) ==> #[trigger] self.workers@[k]
                        == grown.workers@[k],
                forall|k: int|
                    0 <= k < g && k != gpu0 ==> (#[trigger] self.workers@[k]).device
                        == grown.workers@[k].device && self.workers@[k].pages
                        == grown.workers@[k].pages && self.workers@[k].compute_done_seq
                        == grown.workers@[k].compute_done_seq + 1,
                signals@ == signals_of(before.workers@, gpu0 as int, g as int),
            decreases n - g,
        {
            if g != gpu0 {
                assert(before.workers@[g as int].compute_done_seq < u32::MAX);
                let next: u32 = self.workers[g].compute_done_seq + 1;
                self.workers[g].compute_done_seq = next;
                signals.push(FlagSignal { gpu: g, value: next });
            }
            g += 1;
        }
        proof {
            assert forall|c: int| 0 <= c < nc implies (#[trigger] rounds@[c])@ == round_of(
                self.workers@,
                gpu0 as int,
                c,
                chunk_source(seq, table, allocator@, c),
                bytes as nat,
                n as int,
            ) by {
                lemma_round_frame(
                    grown.workers@,
                    self.workers@,
                    gpu0 as int,
                    c,
                    chunk_source(seq, table, allocator@, c),
                    bytes as nat,
                    n as int,
                );
            }
            assert forall|k: int| 0 <= k < n implies {
                let (a, b) = (before.workers@[k], #[trigger] self.workers@[k]);
                &&& k == gpu0 ==> a == b
                &&& k != gpu0 ==> {
                    &&& b.device == a.device
                    &&& b.compute_done_seq == a.compute_done_seq + 1
                    &&& b.pages is Some
                    &&& caught_up(
                        &a.pages->0,
                        &b.pages->0,
                        seq.positions@,
                        seq.seq_len as int,
                    )
                }
            } by {
                assert(grown.grown_to(
                    &before,
                    gpu0 as int,
                    seq.positions@,
                    k,
                    seq.seq_len as int,
                ));
            }
        }
        Ok(BroadcastPlan { rounds, signals })
    }
}

/// A packed sequence with at least as many tokens has at least as many chunks.
proof fn lemma_enough_chunks(
    a: &SequenceState,
    t: &ChunkTable,
    b: &SequenceState,
    u: &ChunkTable,
)
    requires
        a.packed(t),
        b.packed(u),
        a.chunk_tokens == b.chunk_tokens,
        a.seq_len <= b.seq_len,
    ensures
        a.chunks@.len() <= b.chunks@.len(),
{
    let ct = a.chunk_tokens as int;
    sequence::law_packed_room(b, u);
    if a.chunks@.len() > b.chunks@.len() {
        let last = a.chunks@.len() - 1;
        sequence::law_packed_len(a, t, last);
        arith::lemma_mul_mono(b.chunks@.len() as int, last, ct);
    }
}

proof fn lemma_round_frame(
    ws: Seq<GpuWorker>,
    us: Seq<GpuWorker>,
    gpu0: int,
    c: int,
    src: nat,
    bytes: nat,
    n: int,
)
    requires
        n <= ws.len(),
        n <= us.len(),
        forall|k: int| 0 <= k < n ==> (#[trigger] us[k]).pages == ws[k].pages,
    ensures
        round_of(ws, gpu0, c, src, bytes, n) == round_of(us, gpu0, c, src, bytes, n),
    decreases n,
{
    if n > 0 {
        lemma_round_frame(ws, us, gpu0, c, src, bytes, n - 1);
        assert(us[n - 1].pages == ws[n - 1].pages);
    }
}

/// A worker whose positions were a prefix of GPU 0's ends up with GPU 0's positions
/// and, chunk for chunk, GPU 0's lengths.
pub proof fn law_broadcast_mirrors(
    old: &WorkerPages,
    new: &WorkerPages,
    seq: &SequenceState,
    table: &ChunkTable,
    c: int,
)
    requires
        old.wf(),
        seq.packed(table),
        old.seq.chunk_tokens == seq.chunk_tokens,
        old.seq.positions@.is_prefix_of(seq.positions@),
        caught_up(old, new, seq.positions@, seq.seq_len as int),
    ensures
        new.seq.positions@ == seq.positions@,
        new.seq.chunks@.len() == seq.chunks@.len(),
        0 <= c < seq.chunks@.len() ==> new.seq.chunks@[c].chunk(&new.table).len
            == seq.chunks@[c].chunk(table).len,
{
    assert(new.seq.positions@ =~= seq.positions@);
    lemma_enough_chunks(seq, table, &new.seq, &new.table);
    lemma_enough_chunks(&new.seq, &new.table, seq, table);
    if 0 <= c < seq.chunks@.len() {
        sequence::law_packed_len(seq, table, c);
        sequence::law_packed_len(&new.seq, &new.table, c);
    }
}

// ---- bringing the GPUs up ----

/// A direction in which one GPU may read another.
#[derive(Clone, Copy, Debug, PartialEq, Eq, Structural)]
pub struct PeerPair {
    pub from: usize,
    pub to: usize,
}

/// The pairs of GPU `i` with the first `n` others.
pub open spec fn pairs_of(i: int, n: int) -> Seq<PeerPair>
    decreases n,
{
    if n <= 0 {
        Seq::empty()
    } else if n - 1 == i {
        pairs_of(i, n - 1)
    } else {
        pairs_of(i, n - 1).push(PeerPair { from: i as usize, to: (n - 1) as usize })
    }
}

/// All ordered pairs of different GPUs among `n`, for the first `m` of them.
pub open spec fn all_pairs(m: int, n: int) -> Seq<PeerPair>
    decreases m,
{
    if m <= 0 {
        Seq::empty()
    } else {
        all_pairs(m - 1, n) + pairs_of(m - 1, n)
    }
}

/// Every ordered pair of different GPUs is among the pairs to enable.
pub proof fn law_every_pair_enabled(m: int, n: int, i: int, j: int)
    requires
        0 <= i < m <= n <= usize::MAX,
        0 <= j < n,
        i != j,
    ensures
        all_pairs(m, n).contains(PeerPair { from: i as usize, to: j as usize }),
    decreases m,
{
    let p = PeerPair { from: i as usize, to: j as usize };
    let (a, b) = (all_pairs(m - 1, n), pairs_of(m - 1, n));
    if i < m - 1 {
        law_every_pair_enabled(m - 1, n, i, j);
        let k = choose|k: int| 0 <= k < a.len() && a[k] == p;
        assert((a + b)[k] == p);
    } else {
        lemma_pair_listed(i, n, j);
        let k = choose|k: int| 0 <= k < b.len() && b[k] == p;
        assert((a + b)[a.len() + k] == p);
    }
}

proof fn lemma_pair_listed(i: int, n: int, j: int)
    requires
        0 <= j < n <= usize::MAX,
        i != j,
    ensures
        pairs_of(i, n).contains(PeerPair { from: i as usize, to: j as usize }),
    decreases n,
{
    let p = PeerPair { from: i as usize, to: j as usize };
    let s = pairs_of(i, n - 1);
    if j < n - 1 {
        lemma_pair_listed(i, n - 1, j);
        let k = choose|k: int| 0 <= k < s.len() && s[k] == p;
        if n - 1 != i {
            assert(s.push(PeerPair { from: i as usize, to: (n - 1) as usize })[k] == p);
        }
    } else {
        assert(s.push(p)[s.len() as int] == p);
    }
}

/// The status the driver gave when peer access was requested.
#[derive(Clone, Copy, Debug, PartialEq, Eq, Structural)]
pub enum PeerStatus {
    Success,
    InvalidDevice,
    AlreadyEnabled,
    Other { code: i32 },
}

/// What became of a pair.
#[derive(Clone, Copy, Debug, PartialEq, Eq, Structural)]
pub enum PeerOutcome {
    Enabled,
    Failed { code: i32 },
    Unavailable,
}

/// Judges a pair. A pair that was enabled before, or that the topology cannot
/// connect, is no failure.
pub fn peer_outcome(can_access: bool, status: PeerStatus) -> (r: PeerOutcome)
    ensures
        r == if !can_access {
            PeerOutcome::Unavailable
        } else {
            match status {
                PeerStatus::Other { code } => PeerOutcome::Failed { code },
                _ => PeerOutcome::Enabled,
            }
        },
{
    if !can_access {
        return PeerOutcome::Unavailable;
    }
    match status {
        PeerStatus::Other { code } => PeerOutcome::Failed { code },
        _ => PeerOutcome::Enabled,
    }
}

/// How the GPUs are brought up.
pub struct BringUp {
    pub pairs: Vec<PeerPair>,
    /// Order in which queues are first touched.
    pub warm_order: Vec<usize>,
}

fn plan_pairs(n: usize) -> (r: Vec<PeerPair>)
    ensures
        r@ == all_pairs(n as int, n as int),
{
    let mut r: Vec<PeerPair> = Vec::new();
    let mut i: usize = 0;
    assert(r@ =~= Seq::empty());
    while i < n
        invariant
            i <= n,
            r@ == all_pairs(i as int, n as int),
        decreases n - i,
    {
        let ghost done = r@;
        let mut j: usize = 0;
        assert(r@ =~= done + pairs_of(i as int, 0));
        while j < n
            invariant
                j <= n,
                i < n,
                r@ == done + pairs_of(i as int, j as int),
            decreases n - j,
        {
            if i != j {
                r.push(PeerPair { from: i, to: j });
            }
            assert(r@ =~= done + pairs_of(i as int, j + 1));
            j += 1;
        }
        i += 1;
    }
    r
}

fn plan_warm_order(n: usize, reverse: bool) -> (r: Vec<usize>)
    ensures
        r@ == Seq::new(
            n as nat,
            |i: int|
                if reverse {
                    (n - 1 - i) as usize
                } else {
                    i as usize
                },
        ),
{
    let ghost want = Seq::new(
        n as nat,
        |i: int|
            if reverse {
                (n - 1 - i) as usize
            } else {
                i as usize
            },
    );
    let mut r: Vec<usize> = Vec::new();
    let mut i: usize = 0;
    while i < n
        invariant
            i <= n,
            r@.len() == i,
            want == Seq::new(
                n as nat,
                |k: int|
                    if reverse {
                        (n - 1 - k) as usize
                    } else {
                        k as usize
                    },
            ),
            forall|k: int| 0 <= k < i ==> r@[k] == want[k],
        decreases n - i,
    {
        if reverse {
            r.push(n - 1 - i);
        } else {
            r.push(i);
        }
        i += 1;
    }
    assert(r@ =~= want);
    r
}

/// Attention buffers of a worker, in elements; the pool in chunks.
#[derive(Clone, Copy, Debug, PartialEq, Eq, Structural)]
pub struct AttnBuffers {
    pub attn_q: usize,
    pub attn_out: usize,
    pub attn_normed: usize,
    pub attn_q_gate: usize,
    pub attn_k: usize,
    pub attn_v: usize,
    /// Only where queries carry a gate.
    pub attn_gate: Option<usize>,
    pub max_paged_chunks: u32,
    pub page_table: usize,
    pub position_table: usize,
}

/// Sizes of a worker's share of the heads.
#[derive(Clone, Copy, Debug, PartialEq, Eq, Structural)]
pub struct AttnShare {
    pub local_nqh: usize,
    pub local_nkh: usize,
    pub head_dim: usize,
    pub max_seq_len: usize,
    pub hidden_size: usize,
    pub q_mult: usize,
}

impl AttnShare {
    pub open spec fn chunks(self, chunk_tokens: usize) -> int {
        arith::ceil_div(self.max_seq_len as int, chunk_tokens as int)
    }

    pub open spec fn fits(self, chunk_tokens: usize) -> bool {
        &&& chunk_tokens > 0
        &&& self.local_nqh * self.head_dim <= usize::MAX
        &&& self.local_nqh * self.head_dim * self.q_mult <= usize::MAX
        &&& self.local_nkh * self.head_dim <= usize::MAX
        &&& self.max_seq_len + chunk_tokens <= usize::MAX
        &&& 3 * self.max_seq_len <= usize::MAX
        &&& self.chunks(chunk_tokens) <= u32::MAX
    }

    pub open spec fn buffers(self, chunk_tokens: usize) -> AttnBuffers {
        let q = (self.local_nqh * self.head_dim) as usize;
        let kv = (self.local_nkh * self.head_dim) as usize;
        AttnBuffers {
            attn_q: q,
            attn_out: q,
            attn_normed: self.hidden_size,
            attn_q_gate: (self.local_nqh * self.head_dim * self.q_mult) as usize,
            attn_k: kv,
            attn_v: kv,
            attn_gate: if self.q_mult > 1 {
                Some(q)
            } else {
                None
            },
            max_paged_chunks: self.chunks(chunk_tokens) as u32,
            page_table: self.chunks(chunk_tokens) as usize,
            position_table: (3 * self.max_seq_len) as usize,
        }
    }

    /// Sizes a worker's attention buffers.
    pub fn attn_buffers(self, chunk_tokens: usize) -> (r: AttnBuffers)
        requires
            self.fits(chunk_tokens),
        ensures
            r == self.buffers(chunk_tokens),
    {
        let q: usize = self.local_nqh * self.head_dim;
        let kv: usize = self.local_nkh * self.head_dim;
        proof {
            arith::lemma_ceil_div(self.max_seq_len as int, chunk_tokens as int);
        }
        let chunks: usize = div_ceil(self.max_seq_len, chunk_tokens);
        AttnBuffers {
            attn_q: q,
            attn_out: q,
            attn_normed: self.hidden_size,
            attn_q_gate: q * self.q_mult,
            attn_k: kv,
            attn_v: kv,
            attn_gate: if self.q_mult > 1 {
                Some(q)
            } else {
                None
            },
            max_paged_chunks: chunks as u32,
            page_table: chunks,
            position_table: 3 * self.max_seq_len,
        }
    }
}

/// The context of `num_devices` GPUs and how they are brought up; none for one GPU.
/// GPUs warm up in order or in reverse.
pub open spec fn brought_up(
    ctx: &Option<MultiGpuContext>,
    up: &Option<BringUp>,
    num_devices: usize,
    reverse: bool,
) -> bool {
    &&& ctx is None <==> num_devices <= 1
    &&& up is None <==> num_devices <= 1
    &&& num_devices > 1 ==> {
        let (c, u) = (ctx->0, up->0);
        &&& c.wf()
        &&& c.num_devices == num_devices
        &&& forall|g: int|
            0 <= g < num_devices ==> (#[trigger] c.workers@[g]) == (GpuWorker {
                device: DeviceId(g as u32),
                compute_done_seq: 0,
                pages: None,
            })
        &&& u.pairs@ == all_pairs(num_devices as int, num_devices as int)
        &&& u.warm_order@ == Seq::new(
            num_devices as nat,
            |i: int|
                if reverse {
                    (num_devices - 1 - i) as usize
                } else {
                    i as usize
                },
        )
    }
}

impl MultiGpuContext {
    /// Plans bringing up `num_devices` GPUs; a single one needs no context.
    pub fn init(num_devices: usize, reverse_warm_up: bool) -> (r: Option<(Self, BringUp)>)
        requires
            num_devices <= u32::MAX,
        ensures
            match r {
                Some((ctx, up)) => brought_up(&Some(ctx), &Some(up), num_devices, reverse_warm_up),
                None => brought_up(&None, &None, num_devices, reverse_warm_up),
            },
    {
        if num_devices <= 1 {
            return None;
        }
        let mut workers: Vec<GpuWorker> = Vec::new();
        let mut i: usize = 0;
        while i < num_devices
            invariant
                i <= num_devices <= u32::MAX,
                workers@.len() == i,
                forall|g: int|
                    0 <= g < i ==> (#[trigger] workers@[g]) == (GpuWorker {
                        device: DeviceId(g as u32),
                        compute_done_seq: 0,
                        pages: None,
                    }),
            decreases num_devices - i,
        {
            workers.push(
                GpuWorker { device: DeviceId(i as u32), compute_done_seq: 0, pages: None },
            );
            i += 1;
        }
        Some(
            (
                MultiGpuContext { num_devices, workers },
                BringUp {
                    pairs: plan_pairs(num_devices),
                    warm_order: plan_warm_order(num_devices, reverse_warm_up),
                },
            ),
        )
    }

    /// Gives every GPU an empty paged KV over its pool and says how large its
    /// attention buffers are.
    pub fn init_attn_buffers(
        &mut self,
        share: AttnShare,
        config: &ModelConfig,
        chunk_tokens: usize,
        pools: &Vec<usize>,
    ) -> (r: AttnBuffers)
        requires
            old(self).wf(),
            share.fits(chunk_tokens),
            chunk_tokens <= u32::MAX,
            pools@.len() == old(self).num_devices,
            config.num_kv_heads * config.head_dim <= usize::MAX,
            geometry::chunk_bytes_of(config, chunk_tokens as nat) <= usize::MAX,
            forall|g: int|
                0 <= g < pools@.len() ==> (#[trigger] pools@[g]) + share.chunks(chunk_tokens)
                    * geometry::chunk_bytes_of(config, chunk_tokens as nat) <= usize::MAX,
        ensures
            r == share.buffers(chunk_tokens),
            final(self).wf(),
            final(self).num_devices == old(self).num_devices,
            forall|g: int|
                0 <= g < old(self).num_devices ==> {
                    let (a, b) = (old(self).workers@[g], #[trigger] final(self).workers@[g]);
                    &&& b.device == a.device
                    &&& b.compute_done_seq == a.compute_done_seq
                    &&& b.pages matches Some(p) && {
                        &&& p.wf()
                        &&& p.seq.seq_len == 0
                        &&& p.seq.kv_version == 0
                        &&& p.seq.staging_buffer is None
                        &&& p.seq.quant_slots@.len() == 0
                        &&& p.seq.chunk_tokens == chunk_tokens
                        &&& p.allocator.on_device() == a.device
                        &&& p.allocator.tokens_per_chunk() == chunk_tokens
                        &&& p.allocator@ == (PoolState {
                            base: pools@[g] as nat,
                            capacity: share.chunks(chunk_tokens) as nat,
                            slot_bytes: geometry::chunk_bytes_of(config, chunk_tokens as nat),
                            free: slots::fresh_free_list(share.chunks(chunk_tokens) as nat),
                        })
                    }
                },
    {
        let r = share.attn_buffers(chunk_tokens);
        proof {
            arith::lemma_ceil_div(share.max_seq_len as int, chunk_tokens as int);
        }
        let ghost before = *self;
        let n: usize = self.num_devices;
        let mut g: usize = 0;
        while g < n
            invariant
                g <= n,
                n == self.num_devices,
                n == before.num_devices,
                before == *old(self),
                before.wf(),
                self.wf(),
                r == share.buffers(chunk_tokens),
                share.fits(chunk_tokens),
                share.chunks(chunk_tokens) >= 0,
                chunk_tokens <= u32::MAX,
                pools@.len() == n,
                config.num_kv_heads * config.head_dim <= usize::MAX,
                geometry::chunk_bytes_of(config, chunk_tokens as nat) <= usize::MAX,
                forall|k: int|
                    0 <= k < pools@.len() ==> (#[trigger] pools@[k]) + share.chunks(chunk_tokens)
                        * geometry::chunk_bytes_of(config, chunk_tokens as nat) <= usize::MAX,
                forall|k: int|
                    g <= k < n ==> #[trigger] self.workers@[k] == before.workers@[k],
                forall|k: int|
                    0 <= k < g ==> {
                        let (a, b) = (before.workers@[k], #[trigger] self.workers@[k]);
                        &&& b.device == a.device
                        &&& b.compute_done_seq == a.compute_done_seq
                        &&& b.pages matches Some(p) && {
                            &&& p.wf()
                            &&& p.seq.seq_len == 0
                            &&& p.seq.kv_version == 0
                            &&& p.seq.staging_buffer is None
                            &&& p.seq.quant_slots@.len() == 0
                            &&& p.seq.chunk_tokens == chunk_tokens
                            &&& p.allocator.on_device() == a.device
                            &&& p.allocator.tokens_per_chunk() == chunk_tokens
                            &&& p.allocator@ == (PoolState {
                                base: pools@[k] as nat,
                                capacity: share.chunks(chunk_tokens) as nat,
                                slot_bytes: geometry::chunk_bytes_of(config, chunk_tokens as nat),
                                free: slots::fresh_free_list(share.chunks(chunk_tokens) as nat),
                            })
                        }
                    },
            decreases n - g,
        {
            let device = self.workers[g].device;
            let allocator = PageAllocator::new(
                device,
                config,
                chunk_tokens,
                r.max_paged_chunks,
                pools[g],
            );
            let seq = SequenceState::new(chunk_tokens as u32);
            let table = ChunkTable::new();
            assert(seq.packed(&table));
            self.workers[g].pages = Some(WorkerPages { table, allocator, seq });
            g += 1;
        }
        r
    }

    /// The bytes of rows `row_start..row_start + num_rows` of a matrix.
    pub fn copy_weight_slice(
        format: WeightFormat,
        row_start: usize,
        num_rows: usize,
        in_dim: usize,
    ) -> (r: WeightSlice)
        requires
            format.row_bytes(in_dim as nat) <= usize::MAX,
            row_start * format.row_bytes(in_dim as nat) <= usize::MAX,
            num_rows * format.row_bytes(in_dim as nat) <= usize::MAX,
        ensures
            r == slice_of(format, row_start, num_rows, in_dim),
    {
        WeightSlice {
            format,
            byte_offset: format.row_byte_offset_dim(row_start, in_dim),
            byte_len: format.row_byte_offset_dim(num_rows, in_dim),
            out_dim: num_rows,
            in_dim,
        }
    }

    /// Blocks of the copy kernel: one thread per byte.
    pub fn peer_copy_blocks(size: usize) -> (r: usize)
        ensures
            r == ops::blocks(size as nat),
    {
        blocks_for(size)
    }

    /// Decides what to do while waiting for a flag.
    pub fn poll_flag(value: u32, wanted: u32, elapsed_secs: u64) -> (r: PollStep)
        ensures
            r == if value >= wanted {
                PollStep::Done
            } else if elapsed_secs > 30 {
                PollStep::TimedOut
            } else {
                PollStep::Again
            },
    {
        if value >= wanted {
            PollStep::Done
        } else if elapsed_secs > 30 {
            PollStep::TimedOut
        } else {
            PollStep::Again
        }
    }
}

/// What a waiting host does next.
#[derive(Clone, Copy, Debug, PartialEq, Eq, Structural)]
pub enum PollStep {
    Done,
    TimedOut,
    Again,
}

/// Rows of a matrix as bytes.
#[derive(Clone, Copy, Debug, PartialEq, Eq, Structural)]
pub struct WeightSlice {
    pub format: WeightFormat,
    pub byte_offset: usize,
    pub byte_len: usize,
    pub out_dim: usize,
    pub in_dim: usize,
}

pub open spec fn slice_of(
    format: WeightFormat,
    row_start: usize,
    num_rows: usize,
    in_dim: usize,
) -> WeightSlice {
    WeightSlice {
        format,
        byte_offset: (row_start * format.row_bytes(in_dim as nat)) as usize,
        byte_len: (num_rows * format.row_bytes(in_dim as nat)) as usize,
        out_dim: num_rows,
        in_dim,
    }
}

/// Slices of adjacent row ranges are adjacent.
pub proof fn law_slices_adjacent(format: WeightFormat, start: usize, a: usize, b: usize, in_dim: usize)
    requires
        start + a <= usize::MAX,
        (start + a) * format.row_bytes(in_dim as nat) <= usize::MAX,
    ensures
        ({
            let first = slice_of(format, start, a, in_dim);
            let second = slice_of(format, (start + a) as usize, b, in_dim);
            first.byte_offset + first.byte_len == second.byte_offset
        }),
{
    let row = format.row_bytes(in_dim as nat) as int;
    assert((start + a) * row == start * row + a * row) by (nonlinear_arith);
    assert(start * row >= 0 && a * row >= 0) by (nonlinear_arith)
        requires
            row >= 0,
    ;
}

// ---- laws ----

/// A round copies to GPU `g`.
pub open spec fn sent_to(round: Seq<PeerCopy>, g: int) -> bool {
    exists|k: int| 0 <= k < round.len() && (#[trigger] round[k]).gpu == g
}

/// GPU `g` is signalled.
pub open spec fn told(signals: Seq<FlagSignal>, g: int) -> bool {
    exists|k: int| 0 <= k < signals.len() && (#[trigger] signals[k]).gpu == g
}

/// A round sends the chunk to every worker, into the page that the worker keeps it in, and
/// to no one twice.
pub proof fn law_round_reaches_workers(
    ws: Seq<GpuWorker>,
    gpu0: int,
    c: int,
    src: nat,
    bytes: nat,
    n: int,
)
    requires
        0 <= n <= ws.len(),
        n <= usize::MAX,
        src <= usize::MAX,
        bytes <= usize::MAX,
    ensures
        ({
            let round = round_of(ws, gpu0, c, src, bytes, n);
            &&& forall|g: int|
                0 <= g < n && g != gpu0 ==> #[trigger] sent_to(round, g)
            &&& forall|k: int|
                0 <= k < round.len() ==> {
                    let copy = #[trigger] round[k];
                    let p = ws[copy.gpu as int].pages->0;
                    &&& copy.gpu < n
                    &&& copy.gpu != gpu0
                    &&& copy.dst == p.allocator@.addr(
                        p.seq.chunks@[c].chunk(&p.table).slot_index as nat,
                    ) as usize
                    &&& copy.src == src
                    &&& copy.bytes == bytes
                }
            &&& forall|i: int, k: int|
                0 <= i < k < round.len() ==> (#[trigger] round[i]).gpu < (#[trigger] round[k]).gpu
        }),
    decreases n,
{
    if n > 0 {
        law_round_reaches_workers(ws, gpu0, c, src, bytes, n - 1);
        let rest = round_of(ws, gpu0, c, src, bytes, n - 1);
        let round = round_of(ws, gpu0, c, src, bytes, n);
        assert forall|g: int| 0 <= g < n && g != gpu0 implies #[trigger] sent_to(round, g) by {
            if g < n - 1 {
                assert(sent_to(rest, g));
                let k = choose|k: int| 0 <= k < rest.len() && (#[trigger] rest[k]).gpu == g;
                assert(round[k].gpu == g);
            } else {
                assert(round[rest.len() as int].gpu == g);
            }
        }
    }
}

/// Every worker is signalled once, with a value that its flag has not had before.
pub proof fn law_signals_fresh(ws: Seq<GpuWorker>, gpu0: int, n: int)
    requires
        0 <= n <= ws.len(),
        n <= usize::MAX,
        forall|g: int| 0 <= g < n ==> (#[trigger] ws[g]).compute_done_seq < u32::MAX,
    ensures
        ({
            let signals = signals_of(ws, gpu0, n);
            &&& forall|g: int|
                0 <= g < n && g != gpu0 ==> #[trigger] told(signals, g)
            &&& forall|k: int|
                0 <= k < signals.len() ==> {
                    let s = #[trigger] signals[k];
                    &&& s.gpu < n
                    &&& s.gpu != gpu0
                    &&& s.value == ws[s.gpu as int].compute_done_seq + 1
                }
            &&& forall|i: int, k: int|
                0 <= i < k < signals.len() ==> (#[trigger] signals[i]).gpu < (
                #[trigger] signals[k]).gpu
        }),
    decreases n,
{
    if n > 0 {
        law_signals_fresh(ws, gpu0, n - 1);
        let rest = signals_of(ws, gpu0, n - 1);
        let signals = signals_of(ws, gpu0, n);
        assert(ws[n - 1].compute_done_seq < u32::MAX);
        assert forall|g: int| 0 <= g < n && g != gpu0 implies #[trigger] told(signals, g) by {
            if g < n - 1 {
                assert(told(rest, g));
                let k = choose|k: int| 0 <= k < rest.len() && (#[trigger] rest[k]).gpu == g;
                assert(signals[k].gpu == g);
            } else {
                assert(signals[rest.len() as int].gpu == g);
            }
        }
    }
}

/// No GPU is paired with itself, and no pair is enabled twice.
pub proof fn law_pairs_proper(m: int, n: int)
    requires
        0 <= m <= n <= usize::MAX,
    ensures
        ({
            let pairs = all_pairs(m, n);
            &&& forall|k: int|
                0 <= k < pairs.len() ==> (#[trigger] pairs[k]).from < m && pairs[k].to < n
                    && pairs[k].from != pairs[k].to
            &&& forall|i: int, k: int|
                0 <= i < k < pairs.len() ==> #[trigger] pairs[i] != #[trigger] pairs[k]
        }),
    decreases m,
{
    if m > 0 {
        law_pairs_proper(m - 1, n);
        lemma_pairs_of(m - 1, n);
        let (a, b) = (all_pairs(m - 1, n), pairs_of(m - 1, n));
        let pairs = all_pairs(m, n);
        assert forall|k: int| 0 <= k < pairs.len() implies (#[trigger] pairs[k]).from < m
            && pairs[k].to < n && pairs[k].from != pairs[k].to by {
            if k < a.len() {
                assert(pairs[k] == a[k]);
            } else {
                assert(pairs[k] == b[k - a.len()]);
            }
        }
        assert forall|i: int, k: int| 0 <= i < k < pairs.len() implies #[trigger] pairs[i]
            != #[trigger] pairs[k] by {
            if k < a.len() {
                assert(pairs[i] == a[i] && pairs[k] == a[k]);
            } else if i < a.len() {
                assert(pairs[i] == a[i] && pairs[k] == b[k - a.len()]);
            } else {
                assert(pairs[i] == b[i - a.len()] && pairs[k] == b[k - a.len()]);
            }
        }
    }
}

proof fn lemma_pairs_of(i: int, n: int)
    requires
        0 <= i <= usize::MAX,
        0 <= n <= usize::MAX,
    ensures
        ({
            let pairs = pairs_of(i, n);
            &&& forall|k: int|
                0 <= k < pairs.len() ==> (#[trigger] pairs[k]).from == i && pairs[k].to < n
                    && pairs[k].to != i
            &&& forall|j: int, k: int|
                0 <= j < k < pairs.len() ==> (#[trigger] pairs[j]).to < (#[trigger] pairs[k]).to
        }),
    decreases n,
{
    if n > 0 {
        lemma_pairs_of(i, n - 1);
        let rest = pairs_of(i, n - 1);
        let pairs = pairs_of(i, n);
        assert(forall|k: int| 0 <= k < rest.len() ==> #[trigger] pairs[k] == rest[k]);
        assert forall|k: int| 0 <= k < pairs.len() implies (#[trigger] pairs[k]).from == i
            && pairs[k].to < n && pairs[k].to != i by {
            if k < rest.len() {
                assert(pairs[k] == rest[k]);
            }
        }
        assert forall|j: int, k: int| 0 <= j < k < pairs.len() implies (#[trigger] pairs[j]).to < (
        #[trigger] pairs[k]).to by {
            assert(pairs[j] == rest[j]);
            if k < rest.len() {
                assert(pairs[k] == rest[k]);
            }
        }
    }
}

/// Every GPU warms up, once; the reverse order is the order reversed.
pub proof fn law_each_warms_once(
    ctx: &Option<MultiGpuContext>,
    up: &Option<BringUp>,
    back: &Option<BringUp>,
    n: usize,
    g: usize,
)
    requires
        n > 1,
        g < n,
        brought_up(ctx, up, n, false),
        brought_up(ctx, back, n, true),
    ensures
        up->0.warm_order@.no_duplicates(),
        up->0.warm_order@.contains(g),
        up->0.warm_order@[0] == 0,
        back->0.warm_order@ == up->0.warm_order@.reverse(),
{
    assert(up->0.warm_order@[g as int] == g);
    assert(back->0.warm_order@ =~= up->0.warm_order@.reverse());
}

/// A worker's buffers hold its share of the heads, and its pages the longest sequence, with
/// no page to spare.
pub proof fn law_share_fits_buffers(s: AttnShare, chunk_tokens: usize)
    requires
        s.fits(chunk_tokens),
    ensures
        ({
            let b = s.buffers(chunk_tokens);
            &&& b.attn_q == s.local_nqh * s.head_dim
            &&& b.attn_out == b.attn_q
            &&& b.attn_q_gate == b.attn_q * s.q_mult
            &&& b.attn_gate == if s.q_mult > 1 {
                Some(b.attn_q)
            } else {
                None
            }
            &&& b.attn_k == s.local_nkh * s.head_dim
            &&& b.attn_v == b.attn_k
            &&& b.attn_normed == s.hidden_size
            &&& b.page_table == b.max_paged_chunks
            &&& s.max_seq_len <= b.page_table * chunk_tokens
            &&& b.page_table * chunk_tokens < s.max_seq_len + chunk_tokens
            &&& b.position_table == 3 * s.max_seq_len
        }),
{
    let (a, b) = (s.max_seq_len as int, chunk_tokens as int);
    arith::lemma_ceil_div(a, b);
    vstd::arithmetic::div_mod::lemma_fundamental_div_mod(a, b);
    vstd::arithmetic::div_mod::lemma_mod_bound(a, b);
    let (q, r) = (a / b, a % b);
    let n = s.chunks(chunk_tokens);
    assert(a <= n * b && n * b < a + b) by (nonlinear_arith)
        requires
            a == b * q + r,
            0 <= r < b,
            n == q + if r == 0 { 0int } else { 1int },
    ;
    assert(0 <= s.local_nqh * s.head_dim && 0 <= s.local_nkh * s.head_dim) by (nonlinear_arith);
    assert(0 <= s.local_nqh * s.head_dim * s.q_mult) by (nonlinear_arith);
}

} // verus!
