//! The model as the planner sees it: its description and the state that passes
//! leave behind.

use vstd::prelude::*;
use crate::arith;
use crate::config::{LayerConfig, ModelConfig};
use crate::error::{invalid, missing, ModelError};
use crate::model::decode;
use crate::model::decode::{position_data, seals_chunk, DecodePath, PagedStatePlan};
use crate::model::prefill;
use crate::model::prefill::{
    embed_spans, prefill_mixed_chunk_paged, prefill_spans, ChunkSpan, PrefillPath, PrefillStep,
};
use crate::model::state;
use crate::model::state::{append_chunk, Checkpoints, PagedState, ResetLengths};
use crate::multi_gpu;
use crate::multi_gpu::{BroadcastPlan, MultiGpuContext};
use crate::ops::{Inst, CHUNK_TOKENS};
use crate::paged_kv::checkpoint;
use crate::paged_kv::chunk;
use crate::paged_kv::chunk::{ChunkCopy, ChunkRef, ChunkTable, SharedChunk};
use crate::paged_kv::geometry;
use crate::paged_kv::sequence;
use crate::paged_kv::sequence::SequenceState;
use crate::paged_kv::slots;
use crate::paged_kv::slots::{DeviceId, HipError, PageAllocator, PoolState};

verus! {

/// A loaded model.
pub struct Model {
    pub config: ModelConfig,
    pub has_moe: bool,
    pub weight_prefix: String,
    pub bqnt_path: Option<String>,
    pub multi_gpu: Option<MultiGpuContext>,
    pub paged: PagedState,
    pub checkpoints: Checkpoints,
}

/// Whether any layer has experts.
pub open spec fn any_moe(layers: Seq<LayerConfig>) -> bool {
    exists|i: int| 0 <= i < layers.len() && (#[trigger] layers[i]).ffn_type.is_moe()
}

/// How a prompt is processed.
pub struct PrefillPlan {
    pub path: PrefillPath,
    pub spans: Vec<ChunkSpan>,
    /// The embedding of each piece.
    pub embeds: Vec<Vec<Inst>>,
    /// How each piece passes the layers of a model with experts; without experts one
    /// compiled program runs them all.
    pub steps: Vec<PrefillStep>,
}

/// Where the position of a step is written: GPU 0, and this many workers.
#[derive(Clone, Copy, Debug, PartialEq, Eq)]
pub struct PositionWrite {
    pub ids: (i32, i32, i32),
    pub workers: usize,
}

/// What a decode step does besides running its program.
#[derive(Clone, Copy, Debug, PartialEq, Eq)]
pub struct DecodeStep {
    pub position: PositionWrite,
    /// Address of the chunk that the token filled, if it filled one.
    pub sealed: Option<usize>,
}

/// What a step of the paged program does besides running it.
#[derive(Clone, Copy, Debug, PartialEq, Eq)]
pub struct PagedStep {
    /// The program does not exist yet.
    pub compile: bool,
    pub position: PositionWrite,
}

/// Whether any layer has experts.
pub(crate) fn any_moe_exec(layers: &Vec<LayerConfig>) -> (r: bool)
    ensures
        r == any_moe(layers@),
{
    let mut i: usize = 0;
    while i < layers.len()
        invariant
            i <= layers@.len(),
            forall|k: int| 0 <= k < i ==> !(#[trigger] layers@[k]).ffn_type.is_moe(),
        decreases layers@.len() - i,
    {
        if layers[i].ffn_type.moe() {
            assert(layers@[i as int].ffn_type.is_moe());
            return true;
        }
        i += 1;
    }
    false
}

impl Model {
    /// The sequence is packed and owns its chunks; every slot of the pool is free or
    /// holds one of them.
    pub open spec fn housed(&self) -> bool {
        &&& self.paged.seq is Some
        &&& self.paged.pages is Some
        &&& self.paged.seq->0.packed(&self.paged.table)
        &&& self.paged.pages->0.wf()
        &&& sequence::owns(&self.paged.seq->0, &self.paged.table, self.paged.pages->0@)
        &&& self.paged.pages->0@.free.len() + self.paged.seq->0.chunks@.len()
            == self.paged.pages->0@.capacity
    }

    /// The sequence is housed, and as long as the model's own count says.
    pub open spec fn in_step(&self) -> bool {
        &&& self.housed()
        &&& self.paged.seq->0.seq_len == self.paged.seq_len
    }

    /// Tokens that the pool can hold in all.
    pub open spec fn token_capacity(&self) -> int {
        self.paged.pages->0@.capacity * self.paged.seq->0.chunk_tokens
    }

    /// Everything but the paged state and the other GPUs is as in `other`.
    pub open spec fn same_model(&self, other: &Model) -> bool {
        &&& self.config == other.config
        &&& self.has_moe == other.has_moe
        &&& self.weight_prefix == other.weight_prefix
        &&& self.bqnt_path == other.bqnt_path
        &&& self.checkpoints == other.checkpoints
    }

    /// A prompt's chunks are sent to the other GPUs: they take part in expert models.
    pub open spec fn mirrors(&self) -> bool {
        self.has_moe && self.multi_gpu is Some && self.multi_gpu->0.workers@.len() > 0
    }

    /// A model without history.
    pub fn new(config: ModelConfig, weight_prefix: String, bqnt_path: Option<String>) -> (r: Self)
        ensures
            r.config == config,
            r.has_moe == any_moe(config.layers@),
            r.weight_prefix@ == weight_prefix@,
            r.bqnt_path == bqnt_path,
            r.multi_gpu is None,
            r.paged.seq_len == 0,
            r.paged.seq is None,
            r.paged.pages is None,
            r.paged.quant is None,
            r.paged.table.wf(),
            r.paged.table@ == Map::<usize, SharedChunk>::empty(),
            r.checkpoints.wf(),
            r.checkpoints.pool is None,
    {
        let has_moe = any_moe_exec(&config.layers);
        Model {
            config,
            has_moe,
            weight_prefix,
            bqnt_path,
            multi_gpu: None,
            paged: PagedState {
                seq_len: 0,
                table: ChunkTable::new(),
                seq: None,
                pages: None,
                quant: None,
            },
            checkpoints: Checkpoints::new(),
        }
    }

    /// Whether any layer has experts.
    pub fn has_moe(&self) -> (r: bool)
        ensures
            r == self.has_moe,
    {
        self.has_moe
    }

    pub fn config(&self) -> (r: &ModelConfig)
        ensures
            *r == self.config,
    {
        &self.config
    }

    pub fn vocab_size(&self) -> (r: usize)
        ensures
            r == self.config.vocab_size,
    {
        self.config.vocab_size
    }

    /// Decides which KV pools are still to be created before a pass.
    pub fn ensure_paged_decode_state(
        &self,
        quantized: bool,
        has_host: bool,
        vram_setting: Option<&str>,
        host_setting: Option<&str>,
    ) -> (r: PagedStatePlan)
        requires
            decode::max_chunks(&self.config) <= u32::MAX,
        ensures
            r.vram_chunks == if self.paged.pages is Some {
                None
            } else {
                Some(
                    decode::vram_pool_chunks(
                        decode::text_of(vram_setting),
                        decode::max_chunks(&self.config),
                    ) as u32,
                )
            },
            r.quant_chunks == if quantized && self.paged.quant is None {
                Some(decode::max_chunks(&self.config) as u32)
            } else {
                None
            },
            r.host_chunks == if has_host {
                None
            } else {
                match decode::host_pool_chunks(decode::text_of(host_setting)) {
                    Some(n) => Some(n as u32),
                    None => None,
                }
            },
    {
        decode::ensure_paged_decode_state(
            &self.config,
            quantized,
            self.paged.pages.is_some(),
            self.paged.quant.is_some(),
            has_host,
            vram_setting,
            host_setting,
        )
    }

    /// Takes the pools that `plan` asked for into use: device memory at `pages` and
    /// at `quant`. With its pool the sequence starts anew.
    pub fn install_pools(
        &mut self,
        device: DeviceId,
        plan: &PagedStatePlan,
        pages: usize,
        quant: usize,
    )
        requires
            old(self).paged.table.wf(),
            plan.vram_chunks matches Some(n) ==> {
                let bytes = geometry::chunk_bytes_of(&old(self).config, CHUNK_TOKENS as nat);
                &&& old(self).config.num_kv_heads * old(self).config.head_dim <= usize::MAX
                &&& bytes <= usize::MAX
                &&& pages + n as nat * bytes <= usize::MAX
            },
            plan.quant_chunks matches Some(n) ==> {
                let c = old(self).config;
                let bytes = geometry::quant_chunk_bytes_of(&c, CHUNK_TOKENS as nat);
                &&& c.num_kv_heads as nat * CHUNK_TOKENS as nat * c.head_dim as nat <= usize::MAX
                &&& geometry::quant_layer_region(&c, CHUNK_TOKENS as nat) <= usize::MAX
                &&& bytes <= usize::MAX
                &&& quant + n as nat * bytes <= usize::MAX
            },
        ensures
            final(self).same_model(old(self)),
            final(self).multi_gpu == old(self).multi_gpu,
            final(self).paged.seq_len == old(self).paged.seq_len,
            final(self).paged.table == old(self).paged.table,
            plan.vram_chunks matches Some(n) ==> {
                let (s, p) = (final(self).paged.seq, final(self).paged.pages);
                &&& s is Some && p is Some
                &&& p->0.on_device() == device
                &&& p->0.tokens_per_chunk() == CHUNK_TOKENS
                &&& p->0@ == (PoolState {
                    base: pages as nat,
                    capacity: n as nat,
                    slot_bytes: geometry::chunk_bytes_of(&old(self).config, CHUNK_TOKENS as nat),
                    free: slots::fresh_free_list(n as nat),
                })
                &&& s->0.chunks@.len() == 0
                &&& s->0.chunk_tokens == CHUNK_TOKENS
                &&& s->0.kv_version == 0
                &&& s->0.quant_slots@.len() == 0
                &&& s->0.staging_buffer is None
                &&& final(self).housed()
                &&& old(self).paged.seq_len == 0 ==> final(self).in_step()
            },
            plan.vram_chunks is None ==> final(self).paged.seq == old(self).paged.seq
                && final(self).paged.pages == old(self).paged.pages,
            plan.quant_chunks matches Some(n) ==> {
                let q = final(self).paged.quant;
                &&& q is Some
                &&& q->0.wf()
                &&& q->0.on_device() == device
                &&& q->0.tokens_per_chunk() == CHUNK_TOKENS
                &&& q->0@ == (PoolState {
                    base: quant as nat,
                    capacity: n as nat,
                    slot_bytes: geometry::quant_chunk_bytes_of(
                        &old(self).config,
                        CHUNK_TOKENS as nat,
                    ),
                    free: slots::fresh_free_list(n as nat),
                })
            },
            plan.quant_chunks is None ==> final(self).paged.quant == old(self).paged.quant,
    {
        match plan.vram_chunks {
            Some(n) => {
                self.paged.pages = Some(
                    PageAllocator::new(device, &self.config, CHUNK_TOKENS, n, pages),
                );
                self.paged.seq = Some(SequenceState::new(CHUNK_TOKENS as u32));
            },
            None => {},
        }
        match plan.quant_chunks {
            Some(n) => {
                self.paged.quant = Some(
                    PageAllocator::new_quantized(device, &self.config, CHUNK_TOKENS, n, quant),
                );
            },
            None => {},
        }
    }

    /// Makes room for a piece of a prompt: its tokens are appended at their positions.
    /// The model's own count stays until the prompt is done. When the pool runs dry,
    /// sequence and pool are given up.
    pub fn prefill_piece(&mut self, span: ChunkSpan) -> (r: Result<(), ModelError>)
        requires
            old(self).housed(),
            span.start_pos + span.len <= i32::MAX,
            old(self).paged.seq->0.seq_len + span.len <= u32::MAX,
            old(self).paged.seq->0.kv_version + sequence::chunks_opened(
                &old(self).paged.seq->0,
                old(self).paged.pages->0@.free.len(),
                old(self).paged.seq->0.seq_len + span.len,
            ) <= u32::MAX,
        ensures
            r is Err <==> old(self).paged.seq->0.seq_len + span.len > old(self).token_capacity(),
            r matches Err(e) ==> e == ModelError::Hip(HipError::OutOfMemory),
            r is Ok ==> final(self).appended(old(self), span.start_pos as int, span.len as int),
            r is Err ==> final(self).paged_dropped(old(self)),
            final(self).same_model(old(self)),
            final(self).multi_gpu == old(self).multi_gpu,
            final(self).paged.quant == old(self).paged.quant,
    {
        let (taken, pages) = (self.paged.seq.take(), self.paged.pages.take());
        let mut seq = taken.unwrap();
        let mut pages = pages.unwrap();
        let appended = append_chunk(
            &mut seq,
            &mut self.paged.table,
            &mut pages,
            span.start_pos,
            span.len,
        );
        match appended {
            Err(e) => {
                self.paged.table = ChunkTable::new();
                Err(ModelError::Hip(e))
            },
            Ok(_) => {
                self.paged.seq = Some(seq);
                self.paged.pages = Some(pages);
                Ok(())
            },
        }
    }

    /// `n` tokens were appended to `before` at the positions from `start` on: chunks
    /// that were there stay in their slots, and new ones take the next free slots in
    /// turn. The model's own count stays.
    pub open spec fn appended(&self, before: &Model, start: int, n: int) -> bool {
        let (s0, s1) = (before.paged.seq->0, self.paged.seq->0);
        let (p0, p1) = (before.paged.pages->0, self.paged.pages->0);
        &&& self.housed()
        &&& self.paged.seq_len == before.paged.seq_len
        &&& s1.seq_len == s0.seq_len + n
        &&& s1.positions@ == s0.positions@ + Seq::new(n as nat, |t: int| (start + t) as i32)
        &&& s1.chunks@.len() == s0.chunks@.len() + sequence::chunks_opened(
            &s0,
            p0@.free.len(),
            s0.seq_len + n,
        )
        &&& sequence::grown(
            before.paged.table@,
            self.paged.table@,
            s0.chunks@,
            s1.chunks@,
            p0@.free,
        )
        &&& s1.same_rest(&s0)
        &&& s1.kv_version == s0.kv_version + (s1.chunks@.len() - s0.chunks@.len())
        &&& p1.same_setup(&p0)
        &&& p1@ == (PoolState {
            free: p0@.free.take(p0@.free.len() - (s1.chunks@.len() - s0.chunks@.len())),
            ..p0@
        })
    }

    /// Sequence and pool are gone, with all that the sequence held.
    pub open spec fn paged_dropped(&self, before: &Model) -> bool {
        &&& self.paged.seq is None
        &&& self.paged.pages is None
        &&& self.paged.table@.dom().is_empty()
        &&& self.paged.table.wf()
        &&& self.paged.seq_len == before.paged.seq_len
    }

    /// Sends the sequence to the other GPUs of an expert model.
    fn mirror(&mut self) -> (r: Result<Option<BroadcastPlan>, HipError>)
        requires
            old(self).housed(),
            old(self).mirrors() ==> {
                let m = old(self).multi_gpu->0;
                &&& m.wf()
                &&& m.num_devices > 1 ==> m.paged(
                    &old(self).paged.seq->0,
                    old(self).paged.pages->0.on_device().0 as int,
                )
            },
        ensures
            final(self).same_model(old(self)),
            final(self).paged == old(self).paged,
            !old(self).mirrors() ==> r == Ok::<Option<BroadcastPlan>, HipError>(None)
                && final(self).multi_gpu == old(self).multi_gpu,
            old(self).mirrors() ==> {
                let (m0, m1) = (old(self).multi_gpu->0, final(self).multi_gpu->0);
                let (s, t, p) = (
                    old(self).paged.seq->0,
                    old(self).paged.table,
                    old(self).paged.pages->0,
                );
                let gpu0 = p.on_device().0 as int;
                &&& final(self).multi_gpu is Some
                &&& m1.wf()
                &&& r is Err <==> m0.num_devices > 1 && m0.lacks_room(s.seq_len as int, gpu0)
                &&& r matches Err(e) ==> e == HipError::OutOfMemory && multi_gpu::broadcast_cut_short(
                    &m0,
                    &m1,
                    &s,
                    gpu0,
                )
                &&& r matches Ok(plan) ==> plan is Some && multi_gpu::broadcast_done(
                    &m0,
                    &m1,
                    &s,
                    &t,
                    &p,
                    &plan->0,
                )
            },
    {
        if !self.has_moe {
            return Ok(None);
        }
        match self.multi_gpu.take() {
            None => Ok(None),
            Some(mut m) => {
                if m.workers.len() == 0 {
                    self.multi_gpu = Some(m);
                    return Ok(None);
                }
                let r = match (&self.paged.seq, &self.paged.pages) {
                    (Some(seq), Some(pages)) => {
                        m.broadcast_paged_chunks_to_workers(seq, &self.paged.table, pages)
                    },
                    _ => Err(HipError::OutOfMemory),
                };
                self.multi_gpu = Some(m);
                match r {
                    Ok(plan) => Ok(Some(plan)),
                    Err(e) => Err(e),
                }
            },
        }
    }

    /// Plans a prompt: its path, its pieces and how each passes the layers. Nothing
    /// changes yet: each piece is taken by `prefill_piece` when its turn comes, and
    /// `prefill_done` counts the prompt after its last piece. An empty prompt is refused.
    pub fn prefill(&self, tokens: &[u32], tracing: bool) -> (r: Result<PrefillPlan, ModelError>)
        requires
            tokens@.len() > 0 ==> {
                &&& self.paged.seq_len + tokens@.len() <= u32::MAX
                &&& CHUNK_TOKENS * self.config.hidden_size <= usize::MAX
                &&& self.has_moe ==> self.config.num_layers > 0 && self.config.layers@.len()
                    == self.config.num_layers
            },
        ensures
            r is Err <==> tokens@.len() == 0,
            r matches Err(e) ==> e.is_missing("empty token sequence"@),
            r matches Ok(plan) ==> {
                &&& plan.path == if self.has_moe {
                    PrefillPath::Batched
                } else {
                    PrefillPath::Paged
                }
                &&& plan.spans@ == prefill::spans(tokens@.len(), self.paged.seq_len as nat)
                &&& plan.embeds@.len() == plan.spans@.len()
                &&& forall|i: int|
                    0 <= i < plan.embeds@.len() ==> (#[trigger] plan.embeds@[i])@
                        == prefill::embed_insts(&self.config, prefill::piece(tokens@, i))
                &&& plan.steps@ == if self.has_moe {
                    prefill::chunk_steps(
                        self.config.layers@,
                        self.config.num_layers as int,
                        tracing,
                    )
                } else {
                    Seq::empty()
                }
            },
    {
        let path = match prefill::prefill(tokens.len(), self.has_moe) {
            Err(e) => {
                return Err(e);
            },
            Ok(path) => path,
        };
        let spans = prefill_spans(tokens.len(), self.paged.seq_len);
        let embeds = embed_spans(&self.config, tokens, &spans);
        let steps: Vec<PrefillStep> = if self.has_moe {
            prefill_mixed_chunk_paged(&self.config, tracing)
        } else {
            Vec::new()
        };
        Ok(PrefillPlan { path, spans, embeds, steps })
    }

    /// Counts a prompt of `n` tokens once all its pieces have run and, for an expert
    /// model on several GPUs, brings the others in step. When another GPU's pool is too
    /// small for that, the prompt stays counted.
    pub fn prefill_done(&mut self, n: usize) -> (r: Result<Option<BroadcastPlan>, ModelError>)
        requires
            old(self).housed(),
            old(self).paged.seq_len + n <= u32::MAX,
            old(self).mirrors() ==> {
                let m = old(self).multi_gpu->0;
                &&& m.wf()
                &&& m.num_devices > 1 ==> m.paged(
                    &old(self).paged.seq->0,
                    old(self).paged.pages->0.on_device().0 as int,
                )
            },
        ensures
            final(self).same_model(old(self)),
            final(self).paged == (PagedState {
                seq_len: (old(self).paged.seq_len + n) as u32,
                ..old(self).paged
            }),
            old(self).paged.seq->0.seq_len == old(self).paged.seq_len + n
                ==> final(self).in_step(),
            !old(self).mirrors() ==> {
                &&& r matches Ok(plan) && plan is None
                &&& final(self).multi_gpu == old(self).multi_gpu
            },
            old(self).mirrors() ==> {
                let (m0, m1) = (old(self).multi_gpu->0, final(self).multi_gpu->0);
                let (s, t, p) = (
                    old(self).paged.seq->0,
                    old(self).paged.table,
                    old(self).paged.pages->0,
                );
                let gpu0 = p.on_device().0 as int;
                &&& final(self).multi_gpu is Some
                &&& m1.wf()
                &&& r is Err <==> m0.num_devices > 1 && m0.lacks_room(s.seq_len as int, gpu0)
                &&& r matches Err(e) ==> e == ModelError::Hip(HipError::OutOfMemory)
                    && multi_gpu::broadcast_cut_short(&m0, &m1, &s, gpu0)
                &&& r matches Ok(plan) ==> plan is Some && multi_gpu::broadcast_done(
                    &m0,
                    &m1,
                    &s,
                    &t,
                    &p,
                    &plan->0,
                )
            },
    {
        self.paged.seq_len = self.paged.seq_len + n as u32;
        match self.mirror() {
            Err(e) => Err(ModelError::Hip(e)),
            Ok(broadcast) => Ok(broadcast),
        }
    }

    /// Counts the token at `position` once its step has run.
    pub fn step_done(&mut self, position: u32)
        requires
            position < u32::MAX,
        ensures
            final(self).paged == (PagedState {
                seq_len: (position + 1) as u32,
                ..old(self).paged
            }),
            old(self).housed() && old(self).paged.seq->0.seq_len == position + 1
                ==> final(self).in_step(),
            final(self).same_model(old(self)),
            final(self).multi_gpu == old(self).multi_gpu,
    {
        self.paged.seq_len = position + 1;
    }

    /// Whether a step runs on several GPUs.
    pub fn decode_step(&self) -> (r: DecodePath)
        ensures
            r == if self.multi_gpu is Some {
                DecodePath::MultiGpu
            } else {
                DecodePath::SingleGpu
            },
    {
        decode::decode_step(self.multi_gpu.is_some())
    }

    /// There is a sequence that one more token can be appended to.
    pub open spec fn takes_token(&self) -> bool {
        &&& self.paged.seq is Some
        &&& self.paged.pages is Some
        &&& self.paged.seq->0.live(&self.paged.table)
        &&& self.paged.pages->0.wf()
        &&& sequence::in_pool(&self.paged.seq->0, &self.paged.table, self.paged.pages->0@)
        &&& self.paged.seq->0.seq_len < u32::MAX
        &&& self.paged.seq->0.needs_new_chunk(&self.paged.table)
            && self.paged.pages->0@.free.len() > 0 ==> self.paged.seq->0.kv_version < u32::MAX
    }

    /// The next token needs a chunk and the pool has none.
    pub open spec fn pool_dry(&self) -> bool {
        self.paged.seq->0.needs_new_chunk(&self.paged.table) && self.paged.pages->0@.free.len()
            == 0
    }

    /// The token at `position` was appended to `before`: counted in the last chunk, or
    /// as the first of a chunk in the next free slot. No other chunk changes.
    pub open spec fn token_taken(&self, before: &Model, position: u32) -> bool {
        let (s0, s1) = (before.paged.seq->0, self.paged.seq->0);
        let (p0, p1) = (before.paged.pages->0, self.paged.pages->0);
        let fresh = s0.needs_new_chunk(&before.paged.table);
        &&& self.paged.seq is Some
        &&& self.paged.pages is Some
        &&& s1.live(&self.paged.table)
        &&& p1.wf()
        &&& sequence::in_pool(&s1, &self.paged.table, p1@)
        &&& s1.seq_len == s0.seq_len + 1
        &&& s1.positions@ == s0.positions@.push(position as i32)
        &&& s1.chunks@.len() == s0.chunks@.len() + if fresh {
            1int
        } else {
            0int
        }
        &&& s1.chunks@.take(s0.chunks@.len() as int) == s0.chunks@
        &&& s1.same_rest(&s0)
        &&& s1.kv_version == s0.kv_version + if fresh {
            1int
        } else {
            0int
        }
        &&& fresh ==> !before.paged.table@.dom().contains(s1.chunks@.last().inner)
        &&& self.paged.table@ == if fresh {
            before.paged.table@.insert(
                s1.chunks@.last().inner,
                SharedChunk {
                    chunk: ChunkRef { len: 1, ..ChunkRef::fresh(p0@.free.last()) },
                    refs: 1,
                },
            )
        } else {
            let h = s0.chunks@.last();
            let c = h.chunk(&before.paged.table);
            chunk::with_chunk(
                before.paged.table@,
                h.inner,
                ChunkRef { len: (c.len + 1) as u32, ..c },
            )
        }
        &&& p1.same_setup(&p0)
        &&& p1@ == if fresh {
            p0@.allocated()
        } else {
            p0@
        }
        &&& before.housed() ==> self.housed()
    }

    /// No token was appended to `before`, and nothing changed.
    pub open spec fn token_refused(&self, before: &Model) -> bool {
        let (s0, s1) = (before.paged.seq->0, self.paged.seq->0);
        &&& self.paged.seq is Some
        &&& self.paged.pages is Some
        &&& s1.chunks@ == s0.chunks@
        &&& s1.positions@ == s0.positions@
        &&& s1.seq_len == s0.seq_len
        &&& s1.kv_version == s0.kv_version
        &&& s1.same_rest(&s0)
        &&& self.paged.pages->0@ == before.paged.pages->0@
        &&& self.paged.pages->0.same_setup(&before.paged.pages->0)
        &&& self.paged.table@ == before.paged.table@
        &&& self.paged.table.wf()
        &&& self.paged.seq_len == before.paged.seq_len
    }

    /// Appends the token at `position`. The model's own count stays.
    pub(crate) fn append_one(&mut self, position: u32) -> (r: Result<(), HipError>)
        requires
            old(self).takes_token(),
        ensures
            r is Err <==> old(self).pool_dry(),
            r matches Err(e) ==> e == HipError::OutOfMemory,
            r is Err ==> final(self).token_refused(old(self)),
            r is Ok ==> final(self).token_taken(old(self), position),
            final(self).same_model(old(self)),
            final(self).multi_gpu == old(self).multi_gpu,
            final(self).paged.quant == old(self).paged.quant,
            final(self).paged.seq_len == old(self).paged.seq_len,
    {
        let (taken, pages) = (self.paged.seq.take(), self.paged.pages.take());
        let mut seq = taken.unwrap();
        let mut pages = pages.unwrap();
        let r = seq.append_token(&mut self.paged.table, position as i32, &mut pages);
        assert(r is Ok ==> seq.chunks@.take(old(self).paged.seq->0.chunks@.len() as int)
            =~= old(self).paged.seq->0.chunks@);
        self.paged.seq = Some(seq);
        self.paged.pages = Some(pages);
        r
    }

    /// What a step writes as its position, and where.
    pub open spec fn position_write(&self, position: u32) -> PositionWrite {
        PositionWrite {
            ids: (position as i32, position as i32, position as i32),
            workers: match self.multi_gpu {
                Some(m) => m.workers@.len() as usize,
                None => 0,
            },
        }
    }

    /// The position as every rotary section reads it, for GPU 0 and each worker.
    pub fn set_position(&self, position: u32) -> (r: PositionWrite)
        ensures
            r == self.position_write(position),
    {
        let workers: usize = match &self.multi_gpu {
            Some(m) => m.workers.len(),
            None => 0,
        };
        PositionWrite { ids: position_data(position), workers }
    }

    /// Takes the token at `position` into the sequence; `step_done` counts it after the
    /// step. Names the chunk that the token filled, if it filled one. Fails when a chunk
    /// is needed and the pool is exhausted; nothing changes then.
    pub fn decode_step_persistent(&mut self, position: u32) -> (r: Result<DecodeStep, ModelError>)
        requires
            old(self).takes_token(),
            position < u32::MAX,
        ensures
            r is Err <==> old(self).pool_dry(),
            r matches Err(e) ==> e == ModelError::Hip(HipError::OutOfMemory),
            r is Err ==> final(self).token_refused(old(self)),
            r matches Ok(step) ==> {
                let (s, p) = (final(self).paged.seq->0, final(self).paged.pages->0);
                &&& final(self).token_taken(old(self), position)
                &&& step.position == old(self).position_write(position)
                &&& step.sealed == if (position + 1) % CHUNK_TOKENS as int == 0 {
                    Some(
                        p@.addr(
                            s.chunks@.last().chunk(&final(self).paged.table).slot_index as nat,
                        ) as usize,
                    )
                } else {
                    None
                }
            },
            final(self).paged.seq_len == old(self).paged.seq_len,
            final(self).same_model(old(self)),
            final(self).multi_gpu == old(self).multi_gpu,
            final(self).paged.quant == old(self).paged.quant,
    {
        let write = self.set_position(position);
        match self.append_one(position) {
            Err(e) => {
                return Err(ModelError::Hip(e));
            },
            Ok(_) => {},
        }
        let mut sealed: Option<usize> = None;
        if seals_chunk(position) {
            match (&self.paged.seq, &self.paged.pages) {
                (Some(seq), Some(pages)) => {
                    let last: usize = seq.chunks.len() - 1;
                    assert(seq.chunks@[last as int].chunk(&self.paged.table).slot_index
                        < pages@.capacity);
                    let slot: u32 = seq.chunks[last].slot_index(&self.paged.table);
                    sealed = Some(pages.slot_ptr(slot));
                },
                _ => {},
            }
        }
        Ok(DecodeStep { position: write, sealed })
    }

    /// Takes the token at `position` into the sequence for a step of the paged
    /// program, and says whether that program has to be compiled first. `compiled`
    /// is the quantization an existing program was compiled for; a model never mixes
    /// the two. The model's own count stays.
    fn decode_step_paged_inner(
        &mut self,
        position: u32,
        quantized: bool,
        compiled: Option<bool>,
    ) -> (r: Result<PagedStep, ModelError>)
        requires
            !(quantized && old(self).multi_gpu is Some) ==> {
                &&& old(self).takes_token()
                &&& compiled matches Some(q) ==> q == quantized
            },
        ensures
            final(self).paged_step(old(self), position, quantized, compiled, r),
    {
        if quantized && self.multi_gpu.is_some() {
            return Err(invalid("KV_QUANT is not supported in multi-GPU mode"));
        }
        match self.append_one(position) {
            Err(e) => Err(ModelError::Hip(e)),
            Ok(_) => Ok(
                PagedStep { compile: compiled.is_none(), position: self.set_position(position) },
            ),
        }
    }

    /// What a step of the paged program does: quantized KV is refused on several
    /// GPUs, and a dry pool ends the step; nothing changes then.
    pub open spec fn paged_step(
        &self,
        before: &Model,
        position: u32,
        quantized: bool,
        compiled: Option<bool>,
        r: Result<PagedStep, ModelError>,
    ) -> bool {
        let refused = quantized && before.multi_gpu is Some;
        &&& refused ==> {
            &&& *self == *before
            &&& r is Err
            &&& r->Err_0.is_invalid("KV_QUANT is not supported in multi-GPU mode"@)
        }
        &&& !refused ==> {
            &&& r is Err <==> before.pool_dry()
            &&& r is Err ==> r->Err_0 == ModelError::Hip(HipError::OutOfMemory)
                && self.token_refused(before)
            &&& r is Ok ==> {
                &&& self.token_taken(before, position)
                &&& r->Ok_0.compile == (compiled is None)
                &&& r->Ok_0.position == before.position_write(position)
            }
            &&& self.paged.seq_len == before.paged.seq_len
            &&& self.paged.quant == before.paged.quant
            &&& self.multi_gpu == before.multi_gpu
            &&& self.same_model(before)
        }
    }

    /// A step of the paged program with unquantized KV.
    pub fn decode_step_paged(&mut self, position: u32, compiled: Option<bool>) -> (r: Result<
        PagedStep,
        ModelError,
    >)
        requires
            old(self).takes_token(),
            compiled != Some(true),
        ensures
            final(self).paged_step(old(self), position, false, compiled, r),
    {
        self.decode_step_paged_inner(position, false, compiled)
    }

    /// A step of the paged program with sealed chunks quantized; one GPU only.
    pub fn decode_step_paged_quantized(&mut self, position: u32, compiled: Option<bool>) -> (r:
        Result<PagedStep, ModelError>)
        requires
            old(self).multi_gpu is None ==> old(self).takes_token() && compiled != Some(false),
        ensures
            final(self).paged_step(old(self), position, true, compiled, r),
    {
        self.decode_step_paged_inner(position, true, compiled)
    }

    /// Forgets the sequence and says how much of each recurrent buffer is zeroed.
    /// All slots return to their pools.
    pub fn reset_state(&mut self) -> (r: ResetLengths)
        requires
            state::lengths_fit(&old(self).config),
            old(self).paged.resettable(),
        ensures
            r == state::reset_lengths_of(&old(self).config),
            final(self).paged.is_reset(&old(self).paged),
            old(self).housed() ==> {
                &&& final(self).in_step()
                &&& final(self).paged.seq_len == 0
                &&& final(self).paged.pages->0@.free.len() == old(self).paged.pages->0@.capacity
            },
            final(self).same_model(old(self)),
            final(self).multi_gpu == old(self).multi_gpu,
    {
        proof {
            if self.housed() {
                sequence::law_owner_returns_all(
                    &self.paged.seq->0,
                    &self.paged.table,
                    self.paged.pages->0@,
                );
            }
        }
        self.paged.reset_state();
        state::reset_lengths(&self.config)
    }

    /// Attention heads are divided among the GPUs once the workers have paged KV.
    pub open spec fn head_parallel(&self) -> bool {
        &&& self.multi_gpu is Some
        &&& self.multi_gpu->0.workers@.len() > 0
        &&& self.multi_gpu->0.workers@[0].pages is Some
    }

    pub fn has_head_parallel(&self) -> (r: bool)
        ensures
            r == self.head_parallel(),
    {
        match &self.multi_gpu {
            Some(m) => m.workers.len() > 0 && m.workers[0].pages.is_some(),
            None => false,
        }
    }

    /// Bytes to read back for pool slot 0, and from where; nothing without a pool.
    pub fn read_kv_chunk_slot0(&self) -> (r: Option<(usize, usize)>)
        requires
            self.paged.pages matches Some(p) ==> p.wf() && p@.capacity > 0,
        ensures
            r is Some <==> self.paged.pages is Some,
            r matches Some((addr, bytes)) ==> {
                let p = self.paged.pages->0;
                addr == p@.base && bytes == p@.slot_bytes
            },
    {
        match &self.paged.pages {
            None => None,
            Some(p) => {
                assert(p@.addr(0) == p@.base);
                Some((p.slot_ptr(0), p.chunk_bytes()))
            },
        }
    }

    /// An instruction dump can be read once the paged program exists.
    pub fn read_paged_dump(has_program: bool) -> (r: Result<(), ModelError>)
        ensures
            r is Ok <==> has_program,
            r matches Err(e) ==> e.is_missing("megakernel_paged not initialized"@),
    {
        if has_program {
            Ok(())
        } else {
            Err(missing("megakernel_paged not initialized"))
        }
    }

    /// Saves the recurrent states; see `Checkpoints::save_recurrent_checkpoint`.
    pub fn save_recurrent_checkpoint(&mut self, vram: usize, cpu: usize, states: &[usize]) -> (r:
        Result<(u32, Vec<ChunkCopy>), HipError>)
        requires
            old(self).checkpoints.wf(),
            states@.len() > 0,
            old(self).checkpoints.pool is None ==> {
                let c = old(self).config;
                &&& c.linear_num_heads as nat * c.linear_key_head_dim as nat
                    * c.linear_value_head_dim as nat <= usize::MAX
                &&& vram + geometry::recurrent_bytes_of(&c) <= usize::MAX
                &&& cpu + geometry::recurrent_bytes_of(&c) <= usize::MAX
            },
        ensures
            final(self).checkpoints.wf(),
            final(self).checkpoints.pool is Some,
            final(self).checkpoints.last_slot == Some(0u32),
            r is Ok,
            r matches Ok((slot, copies)) ==> {
                let (base, bytes) = old(self).checkpoints.slot_at(&old(self).config, vram);
                slot == 0 && copies@ == checkpoint::save_plan(base, bytes, states@)
            },
            final(self).checkpoints.slot_at(&old(self).config, vram)
                == old(self).checkpoints.slot_at(&old(self).config, vram),
            final(self).checkpoints.host_at(cpu) == old(self).checkpoints.host_at(cpu),
            final(self).config == old(self).config,
            final(self).has_moe == old(self).has_moe,
            final(self).weight_prefix == old(self).weight_prefix,
            final(self).bqnt_path == old(self).bqnt_path,
            final(self).multi_gpu == old(self).multi_gpu,
            final(self).paged == old(self).paged,
    {
        self.checkpoints.save_recurrent_checkpoint(&self.config, vram, cpu, states)
    }

    /// Plans putting saved recurrent states back.
    pub fn restore_recurrent_checkpoint(&self, slot: u32, states: &[usize]) -> (r: Result<
        Vec<ChunkCopy>,
        ModelError,
    >)
        requires
            self.checkpoints.wf(),
            states@.len() > 0,
            self.checkpoints.pool is Some ==> slot == 0,
        ensures
            r is Err <==> self.checkpoints.pool is None,
            r matches Err(e) ==> e.is_missing("checkpoint_pool not initialized"@),
            r matches Ok(copies) ==> copies@ == checkpoint::restore_plan(
                self.checkpoints.pool->0@.base,
                self.checkpoints.pool->0@.slot_bytes,
                states@,
            ),
    {
        self.checkpoints.restore_recurrent_checkpoint(slot, states)
    }
}

/// A housed sequence whose quantized slots are out of their pool can always be reset.
pub proof fn law_housed_resets(m: &Model)
    requires
        m.housed(),
        m.paged.seq->0.kv_version < u32::MAX,
        m.paged.quant matches Some(q) ==> q.wf() && state::quant_out(
            m.paged.seq->0.quant_slots@,
            q@,
        ),
    ensures
        m.paged.resettable(),
{
    sequence::law_owner_returns_all(&m.paged.seq->0, &m.paged.table, m.paged.pages->0@);
}

/// A decoded token moves no chunk: every chunk that was there keeps its handle, its
/// slot and all else but the count of tokens in the last one.
pub proof fn law_token_keeps_chunks(before: &Model, after: &Model, position: u32, i: int)
    requires
        before.takes_token(),
        after.token_taken(before, position),
        0 <= i < before.paged.seq->0.chunks@.len(),
    ensures
        ({
            let h = before.paged.seq->0.chunks@[i];
            &&& after.paged.seq->0.chunks@[i] == h
            &&& sequence::same_but_len(
                after.paged.table@[h.inner],
                before.paged.table@[h.inner],
            )
            &&& h.inner != before.paged.seq->0.chunks@.last().inner ==> after.paged.table@[h.inner]
                == before.paged.table@[h.inner]
        }),
{
    let s0 = before.paged.seq->0;
    let s1 = after.paged.seq->0;
    assert(s1.chunks@[i] == s1.chunks@.take(s0.chunks@.len() as int)[i]);
    assert(before.paged.table@.dom().contains(s0.chunks@[i].inner));
}

/// A piece of a prompt moves no chunk either.
pub proof fn law_prompt_keeps_chunks(before: &Model, after: &Model, start: int, n: int, i: int)
    requires
        after.appended(before, start, n),
        0 <= i < before.paged.seq->0.chunks@.len(),
    ensures
        ({
            let h = before.paged.seq->0.chunks@[i];
            &&& after.paged.seq->0.chunks@[i] == h
            &&& sequence::same_but_len(
                after.paged.table@[h.inner],
                before.paged.table@[h.inner],
            )
        }),
{
    let s0 = before.paged.seq->0;
    let s1 = after.paged.seq->0;
    assert(s1.chunks@[i] == s1.chunks@.take(s0.chunks@.len() as int)[i]);
}

/// Two pieces of a prompt, one after the other, append what they would append as one.
pub proof fn law_pieces_join(
    before: &Model,
    mid: &Model,
    after: &Model,
    start: int,
    n: int,
    more: int,
)
    requires
        before.housed(),
        0 <= n,
        0 <= more,
        mid.appended(before, start, n),
        after.appended(mid, start + n, more),
    ensures
        after.appended(before, start, n + more),
{
    let (s0, s1, s2) = (before.paged.seq->0, mid.paged.seq->0, after.paged.seq->0);
    let (p0, p1, p2) = (before.paged.pages->0, mid.paged.pages->0, after.paged.pages->0);
    let ct = s0.chunk_tokens as int;
    let (c0, f0) = (s0.chunks@.len() as int, p0@.free.len() as int);
    let (a, b) = (s0.seq_len + n, s0.seq_len + n + more);
    sequence::law_packed_room(&s0, &before.paged.table);
    sequence::law_packed_room(&s1, &mid.paged.table);
    sequence::law_packed_room(&s2, &after.paged.table);
    arith::lemma_ceil_div_fits(a, ct, s1.chunks@.len() as int);
    arith::lemma_ceil_div_fits(b, ct, s2.chunks@.len() as int);
    arith::lemma_ceil_div_mono(a, b, ct);
    sequence::lemma_grown_trans(
        before.paged.table@,
        mid.paged.table@,
        after.paged.table@,
        s0.chunks@,
        s1.chunks@,
        s2.chunks@,
        p0@.free,
    );
    assert(s2.positions@ =~= s0.positions@ + Seq::new(
        (n + more) as nat,
        |t: int| (start + t) as i32,
    ));
    assert(p2@.free =~= p0@.free.take(f0 - (s2.chunks@.len() - c0)));
    assert(p2@ =~= (PoolState { free: p0@.free.take(f0 - (s2.chunks@.len() - c0)), ..p0@ }));
}

/// A prompt is its pieces: where each piece was taken in turn, `models` being the model
/// before the first and after each of them, the whole prompt was appended at once. The
/// pool stays as large as it was, so a piece is refused only where the prompt up to its
/// end does not fit.
pub proof fn law_prompt_is_its_pieces(models: Seq<Model>, start: nat, n: nat)
    requires
        0 < n <= usize::MAX,
        start + n <= u32::MAX,
        models.len() == prefill::spans(n, start).len() + 1,
        models[0].housed(),
        pieces_taken(models, n, start, prefill::span_count(n) as int),
    ensures
        models.last().appended(&models[0], start as int, n as int),
        models.last().token_capacity() == models[0].token_capacity(),
{
    let count = prefill::span_count(n) as int;
    arith::lemma_ceil_div(n as int, CHUNK_TOKENS as int);
    lemma_pieces_so_far(models, start, n, count);
    prefill::law_spans_cover_prompt(n, start, (count - 1) as nat);
}

/// Each of the first `k` pieces was taken in turn.
pub open spec fn pieces_taken(models: Seq<Model>, n: nat, start: nat, k: int) -> bool {
    forall|i: int|
        #![trigger prefill::span(n, start, i as nat)]
        0 <= i < k ==> models[i + 1].appended(
            &models[i],
            prefill::span(n, start, i as nat).start_pos as int,
            prefill::span(n, start, i as nat).len as int,
        )
}

proof fn lemma_pieces_so_far(models: Seq<Model>, start: nat, n: nat, k: int)
    requires
        0 < n <= usize::MAX,
        start + n <= u32::MAX,
        0 < k <= prefill::span_count(n),
        models.len() == prefill::span_count(n) + 1,
        models[0].housed(),
        pieces_taken(models, n, start, k),
    ensures
        ({
            let last = prefill::span(n, start, (k - 1) as nat);
            &&& models[k].appended(&models[0], start as int, last.offset + last.len)
            &&& models[k].token_capacity() == models[0].token_capacity()
        }),
    decreases k,
{
    let last = prefill::span(n, start, (k - 1) as nat);
    prefill::law_spans_cover_prompt(n, start, (k - 1) as nat);
    assert(models[k - 1 + 1].appended(&models[k - 1], last.start_pos as int, last.len as int));
    if k > 1 {
        lemma_pieces_so_far(models, start, n, k - 1);
        prefill::law_spans_cover_prompt(n, start, (k - 2) as nat);
        law_pieces_join(
            &models[0],
            &models[k - 1],
            &models[k],
            start as int,
            last.offset as int,
            last.len as int,
        );
    }
}

/// A model in step stays so: a step that takes the token after the last one and counts
/// it, or a prompt that is taken from there on and counted, leaves sequence and count
/// equal. Until the count moves, a failure in between leaves the count as it was.
pub proof fn law_counting_keeps_step(before: &Model, mid: &Model, after: &Model, n: int)
    requires
        before.in_step(),
        mid.paged.seq_len == before.paged.seq_len,
        ({
            ||| mid.token_taken(before, before.paged.seq_len) && n == 1
            ||| mid.appended(before, before.paged.seq_len as int, n)
        }),
        before.paged.seq_len + n <= u32::MAX,
        after.config == mid.config,
        after.paged == (PagedState { seq_len: (mid.paged.seq_len + n) as u32, ..mid.paged }),
    ensures
        after.in_step(),
        after.paged.seq->0.seq_len == before.paged.seq->0.seq_len + n,
{
}

/// What is saved is what a restore puts back: after a save, restoring reads each
/// state from where the save wrote it.
pub proof fn law_checkpoint_round_trip(
    before: &Checkpoints,
    after: &Checkpoints,
    config: &ModelConfig,
    vram: usize,
    states: Seq<usize>,
    i: int,
)
    requires
        before.wf(),
        after.wf(),
        after.pool is Some,
        after.slot_at(config, vram) == before.slot_at(config, vram),
        0 <= i < states.len(),
    ensures
        ({
            let (base, bytes) = before.slot_at(config, vram);
            let saved = checkpoint::save_plan(base, bytes, states)[i];
            let restored = checkpoint::restore_plan(
                after.pool->0@.base,
                after.pool->0@.slot_bytes,
                states,
            )[i];
            restored.src == saved.dst && restored.dst == saved.src && restored.bytes
                == saved.bytes
        }),
{
}

/// Decoding a token leaves the sequence as a prompt of that one token would: the same
/// positions, as many chunks, and the same slots free.
pub proof fn law_token_is_short_prompt(
    before: &Model,
    decoded: &Model,
    prompted: &Model,
    position: u32,
)
    requires
        before.housed(),
        decoded.token_taken(before, position),
        prompted.appended(before, position as int, 1),
    ensures
        ({
            let (a, b) = (decoded.paged.seq->0, prompted.paged.seq->0);
            &&& a.seq_len == b.seq_len
            &&& a.positions@ == b.positions@
            &&& a.chunks@.len() == b.chunks@.len()
            &&& a.kv_version == b.kv_version
            &&& decoded.paged.pages->0@ == prompted.paged.pages->0@
        }),
{
    let (s0, p0) = (before.paged.seq->0, before.paged.pages->0);
    let (a, b) = (decoded.paged.seq->0, prompted.paged.seq->0);
    assert(a.positions@ =~= b.positions@);
    sequence::law_packed_chunk_count(&s0, &before.paged.table);
    sequence::law_packed_chunk_count(&a, &decoded.paged.table);
    sequence::law_packed_chunk_count(&b, &prompted.paged.table);
    assert(p0@.free.take(p0@.free.len() as int) =~= p0@.free);
    assert(p0@.free.take(p0@.free.len() - 1) =~= p0@.free.drop_last());
}

} // verus!
