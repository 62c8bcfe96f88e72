//! A decode step in which other GPUs take part: the compiled program is patched and
//! cut into segments, and its expert layers fan out to the workers.

use vstd::prelude::*;
use crate::error::ModelError;
use crate::model::decode;
use crate::model::decode::{
    moe_ack_targets, patch_logits_output, patch_step_signals, SignalSites, OP_LM_HEAD, OUTPUT_WORD,
};
use crate::model::instance::{Model, PositionWrite};
use crate::model::segments::{AttnBoundary, MoeBoundary, P2pProgram, Segment};
use crate::paged_kv::slots::HipError;
use crate::per_batch_dispatch::{AckTarget, Instruction, Launch, PerBatchDispatch, PerBatchWorker};

verus! {

/// A compiled peer-to-peer program and what it records about itself.
pub struct P2pCode {
    pub instructions: Vec<Instruction>,
    /// Attention for which every GPU projects its own heads.
    pub multi_gpu_attn_boundaries: Vec<AttnBoundary>,
    /// Rotary embedding and attention, in pairs, where GPU 0 projects all heads.
    pub mrope_indices: Vec<usize>,
    pub gqa_attn_indices: Vec<usize>,
    /// Expert dispatches and their layers.
    pub barrier_layer_map: Vec<MoeBoundary>,
    pub moe_act_copies: Vec<usize>,
    pub moe_sums: Vec<usize>,
    /// Whether the program reads paged KV.
    pub paged: bool,
}

/// What a step on several GPUs does besides running its segments.
pub struct P2pStep {
    pub program: P2pProgram,
    pub segments: Vec<Segment>,
    pub position: PositionWrite,
    /// The program's page and position tables follow the sequence.
    pub update_tables: bool,
}

/// The instructions at which boundaries stop GPU 0.
pub open spec fn flushes(boundaries: Seq<AttnBoundary>) -> Seq<usize> {
    Seq::new(boundaries.len(), |i: int| boundaries[i].flush)
}

/// Pairs as boundaries, as far as both lists go.
pub open spec fn paired(first: Seq<usize>, second: Seq<usize>) -> Seq<AttnBoundary> {
    Seq::new(
        if first.len() < second.len() {
            first.len()
        } else {
            second.len()
        },
        |i: int| AttnBoundary { flush: first[i], resume: second[i] },
    )
}

fn flushes_exec(boundaries: &Vec<AttnBoundary>) -> (r: Vec<usize>)
    ensures
        r@ == flushes(boundaries@),
{
    let mut r: Vec<usize> = Vec::new();
    let mut i: usize = 0;
    while i < boundaries.len()
        invariant
            i <= boundaries@.len(),
            r@.len() == i,
            forall|k: int| 0 <= k < i ==> r@[k] == boundaries@[k].flush,
        decreases boundaries@.len() - i,
    {
        r.push(boundaries[i].flush);
        i += 1;
    }
    assert(r@ =~= flushes(boundaries@));
    r
}

fn paired_exec(first: &Vec<usize>, second: &Vec<usize>) -> (r: Vec<AttnBoundary>)
    ensures
        r@ == paired(first@, second@),
{
    let mut r: Vec<AttnBoundary> = Vec::new();
    let mut i: usize = 0;
    while i < first.len() && i < second.len()
        invariant
            i <= first@.len(),
            i <= second@.len(),
            r@.len() == i,
            forall|k: int|
                0 <= k < i ==> r@[k] == (AttnBoundary { flush: first@[k], resume: second@[k] }),
        decreases first@.len() - i,
    {
        r.push(AttnBoundary { flush: first[i], resume: second[i] });
        i += 1;
    }
    assert(r@ =~= paired(first@, second@));
    r
}

fn copied<T: Copy>(v: &Vec<T>) -> (r: Vec<T>)
    ensures
        r@ == v@,
{
    let mut r: Vec<T> = Vec::new();
    let mut i: usize = 0;
    while i < v.len()
        invariant
            i <= v@.len(),
            r@ == v@.take(i as int),
        decreases v@.len() - i,
    {
        r.push(v[i]);
        assert(r@ =~= v@.take(i + 1));
        i += 1;
    }
    assert(v@.take(i as int) =~= v@);
    r
}

impl P2pCode {
    /// Where GPU 0 stops for shared attention: nowhere without it, else at the
    /// recorded boundaries, or at rotary embedding where none was recorded.
    pub open spec fn attn_boundaries(&self, head_parallel: bool) -> Seq<AttnBoundary> {
        if !head_parallel {
            Seq::empty()
        } else if self.multi_gpu_attn_boundaries@.len() > 0 {
            self.multi_gpu_attn_boundaries@
        } else {
            paired(self.mrope_indices@, self.gqa_attn_indices@)
        }
    }

    /// GPUs project their own heads.
    pub open spec fn distributed_qkv(&self, head_parallel: bool) -> bool {
        head_parallel && self.multi_gpu_attn_boundaries@.len() > 0
    }

    /// Where GPU 0 goes on after boundary `a`.
    pub open spec fn resume_at(&self, head_parallel: bool, a: int) -> int {
        let b = self.attn_boundaries(head_parallel)[a];
        if self.distributed_qkv(head_parallel) {
            b.resume as int
        } else {
            b.resume + 1
        }
    }

    /// The compiler's records fit its instructions.
    pub open spec fn valid(&self, head_parallel: bool) -> bool {
        let insts = self.instructions@;
        &&& decode::well_formed(insts)
        &&& decode::has_logits(insts)
        &&& decode::patchable(
            insts,
            flushes(self.multi_gpu_attn_boundaries@),
            decode::COPY_SIGNAL_WORD as int,
        )
        &&& decode::patchable(insts, self.moe_act_copies@, decode::COPY_SIGNAL_WORD as int)
        &&& decode::patchable(insts, self.moe_sums@, decode::POST_SEQ_WORD as int)
        &&& forall|a: int|
            0 <= a < self.attn_boundaries(head_parallel).len() ==> #[trigger] self.resume_at(
                head_parallel,
                a,
            ) <= insts.len()
    }

    /// Instruction `i` with the signals of the step at `position`.
    pub open spec fn signalled(&self, position: u32, i: int) -> Seq<u64> {
        decode::signalled(
            self.instructions@,
            flushes(self.multi_gpu_attn_boundaries@),
            self.moe_act_copies@,
            self.moe_sums@,
            position,
            i,
        )
    }

    /// This is `before` prepared for the step at `position`: every signal carries the
    /// step's value, and the last logits projection writes to `logits`.
    pub open spec fn prepared(&self, before: &P2pCode, position: u32, logits: u64) -> bool {
        &&& self.multi_gpu_attn_boundaries == before.multi_gpu_attn_boundaries
        &&& self.mrope_indices == before.mrope_indices
        &&& self.gqa_attn_indices == before.gqa_attn_indices
        &&& self.barrier_layer_map == before.barrier_layer_map
        &&& self.moe_act_copies == before.moe_act_copies
        &&& self.moe_sums == before.moe_sums
        &&& self.paged == before.paged
        &&& self.instructions@.len() == before.instructions@.len()
        &&& forall|i: int|
            0 <= i < self.instructions@.len() ==> (#[trigger] self.instructions@[i])@
                == if decode::is_last_with(before.instructions@, OP_LM_HEAD, i) {
                before.signalled(position, i).update(OUTPUT_WORD as int, logits)
            } else {
                before.signalled(position, i)
            }
    }

    /// Prepares the program for the step at `position`.
    fn prepare(&mut self, position: u32, logits: u64)
        requires
            old(self).valid(false),
        ensures
            final(self).prepared(old(self), position, logits),
            decode::well_formed(final(self).instructions@),
            forall|i: int|
                0 <= i < old(self).instructions@.len() ==> decode::opcode(
                    #[trigger] final(self).instructions@[i],
                ) == decode::opcode(old(self).instructions@[i]),
    {
        let stops = flushes_exec(&self.multi_gpu_attn_boundaries);
        let sites = SignalSites {
            attn_flushes: stops.as_slice(),
            moe_copies: self.moe_act_copies.as_slice(),
            moe_sums: self.moe_sums.as_slice(),
        };
        patch_step_signals(&mut self.instructions, &sites, position);
        let ghost (was, mid) = (old(self).instructions@, self.instructions@);
        proof {
            assert forall|i: int| 0 <= i < mid.len() implies (#[trigger] mid[i])@.len()
                == was[i]@.len() && mid[i]@[0] == was[i]@[0] && mid[i]@ == old(self).signalled(
                position,
                i,
            ) by {
                assert(was[i]@.len() > 0);
            }
            assert forall|i: int|
                0 <= i < mid.len() && decode::opcode(#[trigger] mid[i])
                    == OP_LM_HEAD implies OUTPUT_WORD < mid[i]@.len() by {
                assert(decode::opcode(was[i]) == OP_LM_HEAD);
            }
            let w = choose|i: int|
                0 <= i < was.len() && decode::opcode(#[trigger] was[i]) == OP_LM_HEAD;
            assert(decode::opcode(mid[w]) == OP_LM_HEAD);
        }
        let k: usize = patch_logits_output(&mut self.instructions, logits);
        proof {
            let insts = self.instructions@;
            assert(decode::is_last_with(was, OP_LM_HEAD, k as int)) by {
                assert(decode::opcode(was[k as int]) == OP_LM_HEAD);
                assert forall|i: int| k < i < was.len() implies decode::opcode(#[trigger] was[i])
                    != OP_LM_HEAD by {
                    assert(decode::opcode(mid[i]) != OP_LM_HEAD);
                }
            }
            assert forall|i: int| 0 <= i < insts.len() implies (#[trigger] insts[i])@.len() > 0
                && insts[i]@[0] == was[i]@[0] && insts[i]@ == if decode::is_last_with(
                was,
                OP_LM_HEAD,
                i,
            ) {
                old(self).signalled(position, i).update(OUTPUT_WORD as int, logits)
            } else {
                old(self).signalled(position, i)
            } by {
                assert(mid[i]@.len() == was[i]@.len());
                assert(was[i]@.len() > 0);
                if i != k {
                    assert(insts[i] == mid[i]);
                    assert(!decode::is_last_with(was, OP_LM_HEAD, i)) by {
                        if i < k {
                            assert(decode::opcode(was[k as int]) == OP_LM_HEAD);
                        }
                    }
                }
            }
        }
    }

    /// What the segmentation reads of this program.
    fn program(&self, head_parallel: bool) -> (r: P2pProgram)
        requires
            decode::well_formed(self.instructions@),
        ensures
            r.opcodes@ == Seq::new(
                self.instructions@.len(),
                |i: int| decode::opcode(self.instructions@[i]),
            ),
            r.moe@ == self.barrier_layer_map@,
            r.attn@ == self.attn_boundaries(head_parallel),
            r.head_parallel == head_parallel,
            r.distributed_qkv == self.distributed_qkv(head_parallel),
    {
        let mut opcodes: Vec<u32> = Vec::new();
        let mut i: usize = 0;
        while i < self.instructions.len()
            invariant
                i <= self.instructions@.len(),
                decode::well_formed(self.instructions@),
                opcodes@.len() == i,
                forall|k: int|
                    0 <= k < i ==> opcodes@[k] == decode::opcode(self.instructions@[k]),
            decreases self.instructions@.len() - i,
        {
            assert(self.instructions@[i as int]@.len() > 0);
            opcodes.push(self.instructions[i].words[0] as u32);
            i += 1;
        }
        assert(opcodes@ =~= Seq::new(
            self.instructions@.len(),
            |k: int| decode::opcode(self.instructions@[k]),
        ));
        let distributed_qkv = head_parallel && self.multi_gpu_attn_boundaries.len() > 0;
        let attn: Vec<AttnBoundary> = if !head_parallel {
            Vec::new()
        } else if distributed_qkv {
            copied(&self.multi_gpu_attn_boundaries)
        } else {
            paired_exec(&self.mrope_indices, &self.gqa_attn_indices)
        };
        assert(attn@ =~= self.attn_boundaries(head_parallel));
        P2pProgram {
            opcodes,
            moe: copied(&self.barrier_layer_map),
            attn,
            head_parallel,
            distributed_qkv,
        }
    }
}

impl Model {
    /// GPU 0 keeps the step's token: always with shared attention, else where there is
    /// a sequence.
    pub open spec fn keeps_token(&self) -> bool {
        self.head_parallel() || (self.paged.seq is Some && self.paged.pages is Some)
    }

    /// A step on several GPUs: prepares the program, takes the token at `position`
    /// into GPU 0's sequence, and cuts the program into segments; `step_done` counts the
    /// token after them. Fails when a chunk is needed and the pool is exhausted; the
    /// program is prepared all the same.
    pub fn decode_step_p2p(&mut self, code: &mut P2pCode, position: u32, logits: u64) -> (r: Result<
        P2pStep,
        ModelError,
    >)
        requires
            old(code).valid(old(self).head_parallel()),
            position < u32::MAX,
            old(self).keeps_token() ==> old(self).takes_token(),
        ensures
            final(code).prepared(old(code), position, logits),
            r is Err <==> old(self).keeps_token() && old(self).pool_dry(),
            r matches Err(e) ==> e == ModelError::Hip(HipError::OutOfMemory),
            r is Err ==> final(self).token_refused(old(self)),
            r matches Ok(step) ==> {
                let parallel = old(self).head_parallel();
                &&& old(self).keeps_token() ==> final(self).token_taken(old(self), position)
                &&& !old(self).keeps_token() ==> {
                    &&& final(self).paged.seq == old(self).paged.seq
                    &&& final(self).paged.pages == old(self).paged.pages
                    &&& final(self).paged.table == old(self).paged.table
                }
                &&& step.position == old(self).position_write(position)
                &&& step.update_tables == (old(code).paged && old(self).paged.seq is Some
                    && old(self).paged.pages is Some)
                &&& step.program.opcodes@ == Seq::new(
                    old(code).instructions@.len(),
                    |i: int| decode::opcode(old(code).instructions@[i]),
                )
                &&& step.program.moe@ == old(code).barrier_layer_map@
                &&& step.program.attn@ == old(code).attn_boundaries(parallel)
                &&& step.program.head_parallel == parallel
                &&& step.program.distributed_qkv == old(code).distributed_qkv(parallel)
                &&& step.segments@ == step.program.segments()
            },
            final(self).paged.seq_len == old(self).paged.seq_len,
            final(self).same_model(old(self)),
            final(self).multi_gpu == old(self).multi_gpu,
            final(self).paged.quant == old(self).paged.quant,
    {
        let parallel = self.has_head_parallel();
        let write = self.set_position(position);
        code.prepare(position, logits);
        let paged = self.paged.seq.is_some() && self.paged.pages.is_some();
        if parallel || paged {
            match self.append_one(position) {
                Err(e) => {
                    return Err(ModelError::Hip(e));
                },
                Ok(_) => {},
            }
        }
        let program = code.program(parallel);
        proof {
            assert(program.opcodes@ =~= Seq::new(
                old(code).instructions@.len(),
                |i: int| decode::opcode(old(code).instructions@[i]),
            ));
            assert forall|a: int| 0 <= a < program.attn@.len() implies #[trigger] program.resume_at(
                a,
            ) <= program.len() by {
                assert(old(code).resume_at(parallel, a) <= old(code).instructions@.len());
            }
        }
        let segments = program.plan_segments();
        Ok(P2pStep { program, segments, position: write, update_tables: code.paged && paged })
    }
}

/// What GPU 0 runs for a segment: first what collects the results of the other GPUs,
/// then its stretch `from..to` of the program.
pub fn segment_instructions(
    insts: &Vec<Instruction>,
    from: usize,
    to: usize,
    gather: Vec<Instruction>,
) -> (r: Vec<Instruction>)
    requires
        from <= to <= insts@.len(),
    ensures
        r@.len() == gather@.len() + (to - from),
        r@.take(gather@.len() as int) == gather@,
        forall|i: int|
            0 <= i < to - from ==> (#[trigger] r@[gather@.len() + i])@ == insts@[from + i]@,
{
    let ghost n = gather@.len() as int;
    let ghost first = gather@;
    let mut r: Vec<Instruction> = gather;
    let mut i: usize = from;
    assert(r@.take(n) =~= first);
    while i < to
        invariant
            from <= i <= to <= insts@.len(),
            n == first.len(),
            r@.len() == n + (i - from),
            r@.take(n) == first,
            forall|k: int| 0 <= k < i - from ==> (#[trigger] r@[n + k])@ == insts@[from + k]@,
        decreases to - i,
    {
        let ghost before = r@;
        let words = copied(&insts[i].words);
        r.push(Instruction { words });
        proof {
            assert(r@.take(n) =~= before.take(n));
            assert forall|k: int| 0 <= k < i + 1 - from implies (#[trigger] r@[n + k])@
                == insts@[from + k]@ by {
                if k < i - from {
                    assert(r@[n + k] == before[n + k]);
                }
            }
        }
        i += 1;
    }
    r
}

/// The launch that worker `w` gets for its expert pass.
pub open spec fn worker_seq(workers: Seq<Option<PerBatchWorker>>, w: int) -> u32 {
    (workers[w + 1]->0.launch_counter + 1) as u32
}

/// The acknowledgements of the first `n` workers' expert passes.
pub open spec fn worker_targets(workers: Seq<Option<PerBatchWorker>>, n: nat) -> Seq<AckTarget> {
    Seq::new(n, |w: int| AckTarget { gpu: (w + 1) as usize, seq: worker_seq(workers, w) })
}

/// Fires one expert pass per worker, GPU `w + 1` for `passes[w]`, and says which
/// launches, GPU 0's among them, the layer waits for.
pub fn dispatch_moe_workers_decode_async(
    dispatch: &mut PerBatchDispatch,
    passes: &Vec<Instruction>,
    gpu0: Option<u32>,
    drop_all: bool,
    drop_workers: bool,
) -> (r: (Vec<Launch>, Vec<AckTarget>))
    requires
        forall|g: int|
            1 <= g <= passes@.len() ==> #[trigger] old(dispatch).has(g)
                && old(dispatch).workers@[g]->0.launch_counter < u32::MAX,
    ensures
        r.0@.len() == passes@.len(),
        forall|w: int|
            0 <= w < passes@.len() ==> (#[trigger] r.0@[w]).is_launch(
                old(dispatch).workers@[w + 1]->0,
                seq![passes@[w]],
                worker_seq(old(dispatch).workers@, w) as nat,
                old(dispatch).op_profile_dev_ptr,
            ),
        r.1@ == decode::awaited(
            worker_targets(old(dispatch).workers@, passes@.len()),
            gpu0,
            drop_all,
            drop_workers,
        ),
        final(dispatch).workers@.len() == old(dispatch).workers@.len(),
        forall|g: int|
            0 <= g < old(dispatch).workers@.len() ==> #[trigger] final(dispatch).workers@[g]
                == if 1 <= g <= passes@.len() {
                Some(
                    PerBatchWorker {
                        launch_counter: worker_seq(old(dispatch).workers@, g - 1),
                        ..old(dispatch).workers@[g]->0
                    },
                )
            } else {
                old(dispatch).workers@[g]
            },
        final(dispatch).op_profile_dev_ptr == old(dispatch).op_profile_dev_ptr,
{
    let ghost workers = old(dispatch).workers@;
    let mut launches: Vec<Launch> = Vec::new();
    let mut targets: Vec<AckTarget> = Vec::new();
    let mut w: usize = 0;
    while w < passes.len()
        invariant
            w <= passes@.len(),
            workers == old(dispatch).workers@,
            forall|g: int|
                1 <= g <= passes@.len() ==> #[trigger] old(dispatch).has(g)
                    && workers[g]->0.launch_counter < u32::MAX,
            launches@.len() == w,
            targets@ == worker_targets(workers, w as nat),
            forall|k: int|
                0 <= k < w ==> (#[trigger] launches@[k]).is_launch(
                    workers[k + 1]->0,
                    seq![passes@[k]],
                    worker_seq(workers, k) as nat,
                    old(dispatch).op_profile_dev_ptr,
                ),
            dispatch.workers@.len() == workers.len(),
            forall|g: int|
                0 <= g < workers.len() ==> #[trigger] dispatch.workers@[g] == if 1 <= g <= w {
                    Some(
                        PerBatchWorker {
                            launch_counter: worker_seq(workers, g - 1),
                            ..workers[g]->0
                        },
                    )
                } else {
                    workers[g]
                },
            dispatch.op_profile_dev_ptr == old(dispatch).op_profile_dev_ptr,
        decreases passes@.len() - w,
    {
        proof {
            assert(old(dispatch).has(w + 1));
            assert(dispatch.workers@[w + 1] == workers[w + 1]);
        }
        let piece: &[Instruction] = vstd::slice::slice_subrange(passes.as_slice(), w, w + 1);
        assert(piece@ =~= seq![passes@[w as int]]);
        let launch = dispatch.dispatch_batch_fire(w + 1, piece);
        targets.push(AckTarget { gpu: w + 1, seq: launch.seq });
        launches.push(launch);
        assert(targets@ =~= worker_targets(workers, (w + 1) as nat));
        w += 1;
    }
    let awaited = moe_ack_targets(targets, gpu0, drop_all, drop_workers);
    (launches, awaited)
}

// ---- laws ----

/// A prepared program differs from the compiled one only in what the step needs: the last
/// logits projection writes to `logits`, what copies signal and what sums await is the
/// step's value.
pub proof fn law_prepared_words(
    code: &P2pCode,
    before: &P2pCode,
    position: u32,
    logits: u64,
    i: int,
    w: int,
)
    requires
        before.valid(false),
        code.prepared(before, position, logits),
        0 <= i < before.instructions@.len(),
        0 <= w < before.instructions@[i]@.len(),
    ensures
        ({
            let signals = w == decode::COPY_SIGNAL_WORD && (decode::names(
                flushes(before.multi_gpu_attn_boundaries@),
                i,
            ) || decode::names(before.moe_act_copies@, i));
            let awaits = w == decode::POST_SEQ_WORD && decode::names(before.moe_sums@, i);
            let projects = w == OUTPUT_WORD && decode::opcode(before.instructions@[i])
                == OP_LM_HEAD && forall|k: int|
                i < k < before.instructions@.len() ==> decode::opcode(
                    #[trigger] before.instructions@[k],
                ) != OP_LM_HEAD;
            code.instructions@[i]@[w] == if signals || awaits {
                (position + 1) as u64
            } else if projects {
                logits
            } else {
                before.instructions@[i]@[w]
            }
        }),
{
    let insts = before.instructions@;
    let stops = flushes(before.multi_gpu_attn_boundaries@);
    assert(code.instructions@[i]@.len() >= 0);
    if decode::names(stops, i) {
        let k = choose|k: int| 0 <= k < stops.len() && #[trigger] stops[k] == i;
        assert(stops[k] < insts.len());
    }
    if decode::names(before.moe_act_copies@, i) {
        let list = before.moe_act_copies@;
        let k = choose|k: int| 0 <= k < list.len() && #[trigger] list[k] == i;
        assert(list[k] < insts.len());
    }
    if decode::names(before.moe_sums@, i) {
        let list = before.moe_sums@;
        let k = choose|k: int| 0 <= k < list.len() && #[trigger] list[k] == i;
        assert(list[k] < insts.len());
    }
}

/// Where GPU 0 projects all heads, it stops at each rotary embedding for the attention that
/// follows it, leaves that attention to all GPUs, and goes on right behind it.
pub proof fn law_attention_left_out(code: &P2pCode, a: int)
    requires
        code.multi_gpu_attn_boundaries@.len() == 0,
        code.mrope_indices@.len() == code.gqa_attn_indices@.len(),
        0 <= a < code.mrope_indices@.len(),
        code.mrope_indices@[a] < code.gqa_attn_indices@[a],
    ensures
        ({
            let b = code.attn_boundaries(true);
            &&& b.len() == code.mrope_indices@.len()
            &&& !code.distributed_qkv(true)
            &&& b[a].flush == code.mrope_indices@[a]
            &&& b[a].flush < code.gqa_attn_indices@[a]
            &&& code.resume_at(true, a) == code.gqa_attn_indices@[a] + 1
        }),
        code.attn_boundaries(false).len() == 0,
{
}

} // verus!
