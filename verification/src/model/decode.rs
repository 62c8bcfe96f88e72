//! Decisions of the decode path: what to create before the first step, how to
//! patch the compiled program for a step, and which acknowledgements to await.

use vstd::prelude::*;
use crate::arith;
use crate::arith::div_ceil;
use crate::config::{FfnType, LayerConfig, ModelConfig};
use crate::error::{invalid, ModelError};
use crate::model::segments::OP_HALT;
use crate::ops::CHUNK_TOKENS;
use crate::paged_kv::slots::DeviceId;
use crate::per_batch_dispatch::{AckTarget, Instruction};
use crate::text;
use crate::text::{parse_number, same_text};

verus! {

/// The final projection to logits.
pub const OP_LM_HEAD: u32 = 16;

/// Most instructions a trace dump has room for.
pub const MAX_DUMP_SLOTS: i32 = 4096;

// ---- lazily created state ----

/// Chunks that hold the longest sequence.
pub open spec fn max_chunks(config: &ModelConfig) -> nat {
    arith::ceil_div(config.max_seq_len as int, CHUNK_TOKENS as int) as nat
}

/// Chunks that hold the longest sequence.
pub fn max_paged_chunks(config: &ModelConfig) -> (r: usize)
    ensures
        r == max_chunks(config),
{
    proof {
        arith::lemma_ceil_div(config.max_seq_len as int, CHUNK_TOKENS as int);
    }
    div_ceil(config.max_seq_len, CHUNK_TOKENS)
}

/// Pools to create before decoding; `None` where one exists or is not wanted.
#[derive(Clone, Copy, Debug, PartialEq, Eq, Structural)]
pub struct PagedStatePlan {
    pub vram_chunks: Option<u32>,
    pub quant_chunks: Option<u32>,
    pub host_chunks: Option<u32>,
}

/// Device chunks to reserve: a positive number in the setting caps the full pool.
pub open spec fn vram_pool_chunks(setting: Option<Seq<char>>, max: nat) -> nat {
    match setting {
        Some(s) => match text::parsed(s, usize::MAX as nat) {
            Some(n) => if n == 0 || n > max {
                max
            } else {
                n
            },
            None => max,
        },
        None => max,
    }
}

/// Host chunks to reserve: only a positive number in the setting asks for any.
pub open spec fn host_pool_chunks(setting: Option<Seq<char>>) -> Option<nat> {
    match setting {
        Some(s) => match text::parsed(s, u32::MAX as nat) {
            Some(n) => if n == 0 {
                None
            } else {
                Some(n)
            },
            None => None,
        },
        None => None,
    }
}

/// The view of an optional text.
pub open spec fn text_of(s: Option<&str>) -> Option<Seq<char>> {
    match s {
        Some(t) => Some(t@),
        None => None,
    }
}

/// Decides which KV pools to create. `has_*` say which exist already.
pub fn ensure_paged_decode_state(
    config: &ModelConfig,
    quantized: bool,
    has_pages: bool,
    has_quant: bool,
    has_host: bool,
    vram_setting: Option<&str>,
    host_setting: Option<&str>,
) -> (r: PagedStatePlan)
    requires
        max_chunks(config) <= u32::MAX,
    ensures
        r.vram_chunks == if has_pages {
            None
        } else {
            Some(vram_pool_chunks(text_of(vram_setting), max_chunks(config)) as u32)
        },
        r.quant_chunks == if quantized && !has_quant {
            Some(max_chunks(config) as u32)
        } else {
            None
        },
        r.host_chunks == if has_host {
            None
        } else {
            match host_pool_chunks(text_of(host_setting)) {
                Some(n) => Some(n as u32),
                None => None,
            }
        },
{
    let max: usize = max_paged_chunks(config);
    let vram: usize = match vram_setting {
        Some(s) => match parse_number(s, usize::MAX) {
            Some(n) => if n == 0 || n > max {
                max
            } else {
                n
            },
            None => max,
        },
        None => max,
    };
    let host: Option<u32> = match host_setting {
        Some(s) => match parse_number(s, u32::MAX as usize) {
            Some(n) => if n == 0 {
                None
            } else {
                Some(n as u32)
            },
            None => None,
        },
        None => None,
    };
    PagedStatePlan {
        vram_chunks: if has_pages {
            None
        } else {
            Some(vram as u32)
        },
        quant_chunks: if quantized && !has_quant {
            Some(max as u32)
        } else {
            None
        },
        host_chunks: if has_host {
            None
        } else {
            host
        },
    }
}

/// What to do about the dispatcher.
#[derive(Clone, Copy, Debug, PartialEq, Eq, Structural)]
pub enum DispatchStep {
    /// Create one with a worker on the model's GPU.
    Create,
    /// Add a worker on the model's GPU.
    AddDevice,
    Keep,
}

/// What to create before the first step on one GPU.
#[derive(Clone, Copy, Debug, PartialEq, Eq, Structural)]
pub struct SpawnPlan {
    pub compile_program: bool,
    /// Whether KV chunks are quantized when they fill.
    pub quantized: bool,
    pub dispatch: DispatchStep,
}

/// Whether KV quantization is switched on.
pub open spec fn kv_quant_on(setting: Option<Seq<char>>) -> bool {
    setting == Some("1"@)
}

/// Whether KV quantization is switched on.
pub fn kv_quant_enabled(setting: Option<&str>) -> (r: bool)
    ensures
        r == kv_quant_on(text_of(setting)),
{
    match setting {
        Some(s) => same_text(s, "1"),
        None => false,
    }
}

/// Decides what the decode path on one GPU still needs; nothing once both the
/// program and the dispatcher exist.
pub fn ensure_persistent_worker_spawned(
    has_program: bool,
    has_dispatch: bool,
    device_armed: bool,
    kv_quant: Option<&str>,
) -> (r: Option<SpawnPlan>)
    ensures
        r is None <==> has_program && has_dispatch,
        r matches Some(p) ==> p == (SpawnPlan {
            compile_program: !has_program,
            quantized: kv_quant_on(text_of(kv_quant)),
            dispatch: if !has_dispatch {
                DispatchStep::Create
            } else if !device_armed {
                DispatchStep::AddDevice
            } else {
                DispatchStep::Keep
            },
        }),
{
    if has_program && has_dispatch {
        return None;
    }
    let dispatch = if !has_dispatch {
        DispatchStep::Create
    } else if !device_armed {
        DispatchStep::AddDevice
    } else {
        DispatchStep::Keep
    };
    Some(
        SpawnPlan {
            compile_program: !has_program,
            quantized: kv_quant_enabled(kv_quant),
            dispatch,
        },
    )
}

/// Widest expert of the layers; 0 when none has experts.
pub open spec fn widest_expert(layers: Seq<LayerConfig>) -> usize
    decreases layers.len(),
{
    if layers.len() == 0 {
        0
    } else {
        let rest = widest_expert(layers.drop_last());
        match layers.last().ffn_type {
            FfnType::MoE { expert_intermediate_size, .. } => if expert_intermediate_size > rest {
                expert_intermediate_size
            } else {
                rest
            },
            _ => rest,
        }
    }
}

/// Widest expert of the layers; 0 when none has experts.
pub fn max_expert_size(layers: &Vec<LayerConfig>) -> (r: usize)
    ensures
        r == widest_expert(layers@),
{
    let mut r: usize = 0;
    let mut i: usize = 0;
    assert(layers@.take(0).len() == 0);
    while i < layers.len()
        invariant
            i <= layers@.len(),
            r == widest_expert(layers@.take(i as int)),
        decreases layers@.len() - i,
    {
        assert(layers@.take(i + 1).drop_last() =~= layers@.take(i as int));
        match layers[i].ffn_type {
            FfnType::MoE { expert_intermediate_size, .. } => {
                if expert_intermediate_size > r {
                    r = expert_intermediate_size;
                }
            },
            _ => {},
        }
        i += 1;
    }
    assert(layers@.take(i as int) =~= layers@);
    r
}

/// What the expert workers need.
pub struct MoeWorkerPlan {
    pub num_gpus: usize,
    /// GPUs that get a worker now; GPU 0 follows with the first decode step.
    pub worker_devices: Vec<DeviceId>,
    /// Only several GPUs need the peer-to-peer program.
    pub compile_p2p: bool,
    pub max_expert_size: usize,
    pub gate_up_in_dim: usize,
}

/// Decides how to start the expert workers; nothing for a model without experts or
/// when they run already. Without a multi-GPU context the model has one GPU.
pub fn ensure_moe_workers_started(
    config: &ModelConfig,
    has_p2p: bool,
    has_moe: bool,
    num_devices: Option<usize>,
) -> (r: Option<MoeWorkerPlan>)
    requires
        num_devices matches Some(n) ==> n <= u32::MAX,
    ensures
        r is None <==> has_p2p || !has_moe,
        r matches Some(p) ==> {
            &&& p.num_gpus == if num_devices is Some {
                num_devices->0
            } else {
                1
            }
            &&& p.worker_devices@.len() == if p.num_gpus == 0 {
                0
            } else {
                p.num_gpus - 1
            }
            &&& forall|i: int|
                0 <= i < p.worker_devices@.len() ==> (#[trigger] p.worker_devices@[i]).0 == i + 1
            &&& p.compile_p2p == (p.num_gpus > 1)
            &&& p.max_expert_size == widest_expert(config.layers@)
            &&& p.gate_up_in_dim == if config.moe_latent_size is Some {
                config.moe_latent_size->0
            } else {
                config.hidden_size
            }
        },
{
    if has_p2p || !has_moe {
        return None;
    }
    let num_gpus: usize = match num_devices {
        Some(n) => n,
        None => 1,
    };
    let mut worker_devices: Vec<DeviceId> = Vec::new();
    let mut g: usize = 1;
    while g < num_gpus
        invariant
            1 <= g,
            num_gpus <= u32::MAX,
            g <= num_gpus || num_gpus == 0,
            num_gpus == 0 ==> g == 1,
            worker_devices@.len() == g - 1,
            forall|i: int|
                0 <= i < worker_devices@.len() ==> (#[trigger] worker_devices@[i]).0 == i + 1,
        decreases num_gpus - g,
    {
        worker_devices.push(DeviceId(g as u32));
        g += 1;
    }
    let gate_up_in_dim: usize = match config.moe_latent_size {
        Some(n) => n,
        None => config.hidden_size,
    };
    Some(
        MoeWorkerPlan {
            num_gpus,
            worker_devices,
            compile_p2p: num_gpus > 1,
            max_expert_size: max_expert_size(&config.layers),
            gate_up_in_dim,
        },
    )
}

/// What several GPUs still need once the expert workers were started.
#[derive(Clone, Copy, Debug, PartialEq, Eq, Structural)]
pub enum MultiGpuStep {
    /// Create a dispatcher with `total` slots and a worker on the model's GPU.
    Create { total: usize },
    AddDevice,
    Keep,
}

/// Decides how GPU 0 joins the workers.
pub fn init_multi_gpu_persistent(
    num_gpus: usize,
    has_dispatch: bool,
    gpu0_armed: bool,
) -> (r: MultiGpuStep)
    ensures
        r == if !has_dispatch {
            MultiGpuStep::Create { total: if num_gpus > 1 { num_gpus } else { 1 } }
        } else if !gpu0_armed {
            MultiGpuStep::AddDevice
        } else {
            MultiGpuStep::Keep
        },
{
    if !has_dispatch {
        MultiGpuStep::Create {
            total: if num_gpus > 1 {
                num_gpus
            } else {
                1
            },
        }
    } else if !gpu0_armed {
        MultiGpuStep::AddDevice
    } else {
        MultiGpuStep::Keep
    }
}

/// Text of the error for a dense model on several GPUs.
pub open spec fn no_p2p_text() -> Seq<char> {
    "decode_step_persistent_multi_gpu reached without an MoE-P2P megakernel program. This indicates a non-MoE multi-GPU Model was constructed, which is not a supported configuration in braidinfer (no tensor-parallel/pipeline-parallel dispatch for dense models). cli.rs::apply_auto_modes should have rejected this at startup; this is a defensive guard."@
}

/// Checks that several GPUs have a program to run: only expert models do.
pub fn decode_step_persistent_multi_gpu(has_p2p_program: bool) -> (r: Result<(), ModelError>)
    ensures
        r is Ok <==> has_p2p_program,
        r matches Err(e) ==> e.is_invalid(no_p2p_text()),
{
    if has_p2p_program {
        Ok(())
    } else {
        Err(
            invalid(
                "decode_step_persistent_multi_gpu reached without an MoE-P2P megakernel program. This indicates a non-MoE multi-GPU Model was constructed, which is not a supported configuration in braidinfer (no tensor-parallel/pipeline-parallel dispatch for dense models). cli.rs::apply_auto_modes should have rejected this at startup; this is a defensive guard.",
            ),
        )
    }
}

/// Whether GPU 0 still has to be armed before a multi-GPU step. `armed` says
/// whether an existing dispatcher has a worker on it.
pub fn needs_gpu0(armed: Option<bool>) -> (r: bool)
    ensures
        r == (armed != Some(true)),
{
    match armed {
        Some(a) => !a,
        None => true,
    }
}

/// Which decode path a step takes.
#[derive(Clone, Copy, Debug, PartialEq, Eq, Structural)]
pub enum DecodePath {
    SingleGpu,
    MultiGpu,
}

/// A model with a multi-GPU context decodes on all its GPUs.
pub fn decode_step(multi_gpu: bool) -> (r: DecodePath)
    ensures
        r == if multi_gpu {
            DecodePath::MultiGpu
        } else {
            DecodePath::SingleGpu
        },
{
    if multi_gpu {
        DecodePath::MultiGpu
    } else {
        DecodePath::SingleGpu
    }
}

// ---- per-step patches ----

/// The opcode of an instruction: the low half of its first word.
pub open spec fn opcode(i: Instruction) -> u32 {
    i@[0] as u32
}

/// Every instruction has an opcode.
pub open spec fn well_formed(insts: Seq<Instruction>) -> bool {
    forall|i: int| 0 <= i < insts.len() ==> (#[trigger] insts[i])@.len() > 0
}

/// Index of the first instruction with opcode `op`; the length if there is none.
pub fn first_with_opcode(insts: &Vec<Instruction>, op: u32) -> (r: usize)
    requires
        well_formed(insts@),
    ensures
        r <= insts@.len(),
        r < insts@.len() ==> opcode(insts@[r as int]) == op,
        forall|i: int| 0 <= i < r ==> opcode(#[trigger] insts@[i]) != op,
{
    let mut i: usize = 0;
    while i < insts.len()
        invariant
            i <= insts@.len(),
            well_formed(insts@),
            forall|j: int| 0 <= j < i ==> opcode(#[trigger] insts@[j]) != op,
        decreases insts@.len() - i,
    {
        assert(insts@[i as int]@.len() > 0);
        if insts[i].words[0] as u32 == op {
            return i;
        }
        i += 1;
    }
    i
}

/// How many instructions are sent to a worker that must keep running: all before
/// the one that ends the program.
pub fn sendable(insts: &Vec<Instruction>) -> (r: usize)
    requires
        well_formed(insts@),
    ensures
        r <= insts@.len(),
        r < insts@.len() ==> opcode(insts@[r as int]) == OP_HALT,
        forall|i: int| 0 <= i < r ==> opcode(#[trigger] insts@[i]) != OP_HALT,
{
    first_with_opcode(insts, OP_HALT)
}

/// Index of the last instruction with opcode `op`.
pub fn last_with_opcode(insts: &Vec<Instruction>, op: u32) -> (r: Option<usize>)
    requires
        well_formed(insts@),
    ensures
        r is None <==> forall|i: int| 0 <= i < insts@.len() ==> opcode(#[trigger] insts@[i]) != op,
        r matches Some(k) ==> {
            &&& k < insts@.len()
            &&& opcode(insts@[k as int]) == op
            &&& forall|i: int| k < i < insts@.len() ==> opcode(#[trigger] insts@[i]) != op
        },
{
    let mut i: usize = insts.len();
    while i > 0
        invariant
            i <= insts@.len(),
            well_formed(insts@),
            forall|j: int| i <= j < insts@.len() ==> opcode(#[trigger] insts@[j]) != op,
        decreases i,
    {
        i -= 1;
        assert(insts@[i as int]@.len() > 0);
        if insts[i].words[0] as u32 == op {
            assert(opcode(insts@[i as int]) == op);
            return Some(i);
        }
    }
    None
}

/// The instructions after one word of one of them was replaced.
pub open spec fn is_patched(
    before: Seq<Instruction>,
    after: Seq<Instruction>,
    index: int,
    word: int,
    value: u64,
) -> bool {
    &&& after.len() == before.len()
    &&& after[index]@ == before[index]@.update(word, value)
    &&& forall|i: int| 0 <= i < before.len() && i != index ==> #[trigger] after[i] == before[i]
}

/// Replaces one word of one instruction.
fn patch_word(insts: &mut Vec<Instruction>, index: usize, word: usize, value: u64)
    requires
        index < old(insts)@.len(),
        word < old(insts)@[index as int]@.len(),
    ensures
        is_patched(old(insts)@, final(insts)@, index as int, word as int, value),
{
    insts[index].words.set(word, value);
}

/// Whether the list names instruction `i`.
pub open spec fn names(indices: Seq<usize>, i: int) -> bool {
    exists|k: int| 0 <= k < indices.len() && #[trigger] indices[k] == i
}

/// After the listed instructions got `value` in word `word`.
pub open spec fn all_patched(
    before: Seq<Instruction>,
    after: Seq<Instruction>,
    indices: Seq<usize>,
    word: int,
    value: u64,
) -> bool {
    &&& after.len() == before.len()
    &&& forall|i: int|
        0 <= i < before.len() ==> (#[trigger] after[i])@ == if names(indices, i) {
            before[i]@.update(word, value)
        } else {
            before[i]@
        }
}

/// Writes `value` to word `word` of every listed instruction.
pub fn patch_words(insts: &mut Vec<Instruction>, indices: &[usize], word: usize, value: u64)
    requires
        forall|k: int|
            0 <= k < indices@.len() ==> (#[trigger] indices@[k]) < old(insts)@.len() && word < old(insts)@[indices@[k] as int]@.len(),
    ensures
        all_patched(old(insts)@, final(insts)@, indices@, word as int, value),
{
    let mut k: usize = 0;
    while k < indices.len()
        invariant
            k <= indices@.len(),
            forall|j: int|
                0 <= j < indices@.len() ==> (#[trigger] indices@[j]) < old(insts)@.len() && word
                    < old(insts)@[indices@[j] as int]@.len(),
            all_patched(old(insts)@, insts@, indices@.take(k as int), word as int, value),
        decreases indices@.len() - k,
    {
        let index: usize = indices[k];
        let ghost before = insts@;
        assert(indices@[k as int] < old(insts)@.len());
        assert(before[index as int]@.len() == old(insts)@[index as int]@.len());
        patch_word(insts, index, word, value);
        proof {
            let done = indices@.take(k as int);
            let next = indices@.take(k + 1);
            assert(next == done.push(index));
            assert forall|i: int| 0 <= i < insts@.len() implies (#[trigger] insts@[i])@
                == if names(next, i) {
                old(insts)@[i]@.update(word as int, value)
            } else {
                old(insts)@[i]@
            } by {
                assert(before[i]@ == if names(done, i) {
                    old(insts)@[i]@.update(word as int, value)
                } else {
                    old(insts)@[i]@
                });
                assert(next[k as int] == index);
                if names(done, i) {
                    let j = choose|j: int| 0 <= j < done.len() && #[trigger] done[j] == i;
                    assert(next[j] == i);
                }
                if names(next, i) && i != index {
                    let j = choose|j: int| 0 <= j < next.len() && #[trigger] next[j] == i;
                    assert(done[j] == i);
                }
                if i == index {
                    assert(insts@[i]@ =~= old(insts)@[i]@.update(word as int, value));
                }
            }
        }
        k += 1;
    }
    assert(indices@.take(k as int) =~= indices@);
}

/// Word of a copy instruction that holds the value it signals.
pub const COPY_SIGNAL_WORD: usize = 7;

/// Word of an expert-sum instruction that holds the value it awaits.
pub const POST_SEQ_WORD: usize = 6;

/// Word of a projection that holds its output address.
pub const OUTPUT_WORD: usize = 1;

/// The value every signal of a step carries: it grows by one per step, so a stale
/// one is never mistaken for the current.
pub fn step_sequence(position: u32) -> (r: u64)
    ensures
        r == position + 1,
{
    position as u64 + 1
}

/// Whether every listed instruction exists and has word `word`.
pub open spec fn patchable(insts: Seq<Instruction>, indices: Seq<usize>, word: int) -> bool {
    forall|k: int|
        0 <= k < indices.len() ==> (#[trigger] indices[k]) < insts.len() && word
            < insts[indices[k] as int]@.len()
}

/// Which instructions of a peer-to-peer program carry a step's signals: copies at
/// the attention boundaries and before the experts, and the expert sums.
pub struct SignalSites<'a> {
    pub attn_flushes: &'a [usize],
    pub moe_copies: &'a [usize],
    pub moe_sums: &'a [usize],
}

impl<'a> SignalSites<'a> {
    /// Every site is an instruction with the word that is written there.
    pub open spec fn fit(&self, insts: Seq<Instruction>) -> bool {
        &&& patchable(insts, self.attn_flushes@, COPY_SIGNAL_WORD as int)
        &&& patchable(insts, self.moe_copies@, COPY_SIGNAL_WORD as int)
        &&& patchable(insts, self.moe_sums@, POST_SEQ_WORD as int)
    }
}

/// Instruction `i` with the signals of the step at `position`: the copies at
/// `attn_flushes` and `moe_copies` signal its value, the sums at `moe_sums` await it.
pub open spec fn signalled(
    insts: Seq<Instruction>,
    attn_flushes: Seq<usize>,
    moe_copies: Seq<usize>,
    moe_sums: Seq<usize>,
    position: u32,
    i: int,
) -> Seq<u64> {
    let was = insts[i]@;
    let value = (position + 1) as u64;
    let copied = if names(attn_flushes, i) || names(moe_copies, i) {
        was.update(COPY_SIGNAL_WORD as int, value)
    } else {
        was
    };
    if names(moe_sums, i) {
        copied.update(POST_SEQ_WORD as int, value)
    } else {
        copied
    }
}

/// Prepares a peer-to-peer program for a step: what its copies signal and what its
/// expert sums await.
pub fn patch_step_signals(insts: &mut Vec<Instruction>, sites: &SignalSites<'_>, position: u32)
    requires
        sites.fit(old(insts)@),
    ensures
        final(insts)@.len() == old(insts)@.len(),
        forall|i: int|
            0 <= i < final(insts)@.len() ==> (#[trigger] final(insts)@[i])@ == signalled(
                old(insts)@,
                sites.attn_flushes@,
                sites.moe_copies@,
                sites.moe_sums@,
                position,
                i,
            ),
{
    let ghost (attn_flushes, moe_copies, moe_sums) = (
        sites.attn_flushes@,
        sites.moe_copies@,
        sites.moe_sums@,
    );
    let value: u64 = step_sequence(position);
    patch_words(insts, sites.attn_flushes, COPY_SIGNAL_WORD, value);
    let ghost first = insts@;
    assert forall|k: int| 0 <= k < moe_copies.len() implies (#[trigger] moe_copies[k])
        < insts@.len() && COPY_SIGNAL_WORD < insts@[moe_copies[k] as int]@.len() by {
        let i = moe_copies[k] as int;
        assert(COPY_SIGNAL_WORD < old(insts)@[i]@.len());
        assert(first[i]@.len() == old(insts)@[i]@.len());
    }
    patch_words(insts, sites.moe_copies, COPY_SIGNAL_WORD, value);
    let ghost second = insts@;
    assert forall|k: int| 0 <= k < moe_sums.len() implies (#[trigger] moe_sums[k]) < insts@.len()
        && POST_SEQ_WORD < insts@[moe_sums[k] as int]@.len() by {
        let i = moe_sums[k] as int;
        assert(first[i]@.len() == old(insts)@[i]@.len());
        assert(second[i]@.len() == first[i]@.len());
    }
    patch_words(insts, sites.moe_sums, POST_SEQ_WORD, value);
    assert forall|i: int| 0 <= i < insts@.len() implies (#[trigger] insts@[i])@ == signalled(
        old(insts)@,
        attn_flushes,
        moe_copies,
        moe_sums,
        position,
        i,
    ) by {
        let was = old(insts)@[i]@;
        assert(first[i]@.len() == was.len());
        if names(moe_copies, i) {
            assert(was.update(7, value).update(7, value) =~= was.update(7, value));
        }
        assert(second[i]@ == if names(attn_flushes, i) || names(moe_copies, i) {
            was.update(7, value)
        } else {
            was
        });
    }
}

/// Instruction `k` is the last with opcode `op`.
pub open spec fn is_last_with(insts: Seq<Instruction>, op: u32, k: int) -> bool {
    &&& 0 <= k < insts.len()
    &&& opcode(insts[k]) == op
    &&& forall|i: int| k < i < insts.len() ==> opcode(#[trigger] insts[i]) != op
}

/// The program projects to logits, and each such projection names its output.
pub open spec fn has_logits(insts: Seq<Instruction>) -> bool {
    &&& exists|i: int| 0 <= i < insts.len() && opcode(#[trigger] insts[i]) == OP_LM_HEAD
    &&& forall|i: int|
        0 <= i < insts.len() && opcode(#[trigger] insts[i]) == OP_LM_HEAD ==> OUTPUT_WORD
            < insts[i]@.len()
}

/// Points the program's last logits projection, instruction `k`, at `address`.
pub fn patch_logits_output(insts: &mut Vec<Instruction>, address: u64) -> (k: usize)
    requires
        well_formed(old(insts)@),
        has_logits(old(insts)@),
    ensures
        is_last_with(old(insts)@, OP_LM_HEAD, k as int),
        is_patched(old(insts)@, final(insts)@, k as int, OUTPUT_WORD as int, address),
{
    let found = last_with_opcode(insts, OP_LM_HEAD);
    let k: usize = found.unwrap();
    patch_word(insts, k, OUTPUT_WORD, address);
    assert(opcode(old(insts)@[k as int]) == OP_LM_HEAD);
    k
}

/// Whether the token at `position` fills its chunk.
pub open spec fn fills_chunk(position: u32) -> bool {
    (position + 1) % CHUNK_TOKENS as int == 0
}

/// Whether the token at `position` fills its chunk.
pub fn seals_chunk(position: u32) -> (r: bool)
    requires
        position < usize::MAX,
    ensures
        r == fills_chunk(position),
        r == ((position + 1) % CHUNK_TOKENS as int == 0),
{
    (position as usize + 1) % CHUNK_TOKENS == 0
}

/// Room a trace dump of `instructions` instructions gets.
pub fn dump_slots(instructions: usize) -> (r: i32)
    requires
        instructions <= i32::MAX,
    ensures
        r == if instructions < MAX_DUMP_SLOTS {
            instructions as int
        } else {
            MAX_DUMP_SLOTS as int
        },
{
    if (instructions as i32) < MAX_DUMP_SLOTS {
        instructions as i32
    } else {
        MAX_DUMP_SLOTS
    }
}

/// The position as every rotary section reads it.
pub fn position_data(position: u32) -> (r: (i32, i32, i32))
    ensures
        r == (position as i32, position as i32, position as i32),
{
    (position as i32, position as i32, position as i32)
}

// ---- expert workers ----

/// What one decode step asks of an expert layer's workers.
#[derive(Clone, Copy, Debug, PartialEq, Eq, Structural)]
pub struct MoeDecodeParams {
    pub hidden_size: usize,
    pub k: usize,
    pub expert_intermediate_size: usize,
    pub has_gate_proj: bool,
    pub relu_sq: bool,
    /// Expert input width; 0 means the hidden size.
    pub gate_up_in_dim: usize,
}

/// Where a worker leaves its result.
#[derive(Clone, Copy, Debug, PartialEq, Eq, Structural)]
pub enum ResultPlace {
    /// GPU 0's output slots, this many elements in.
    OutputSlot { offset: usize },
    /// Its own memory, which GPU 0 reads once the worker signals.
    WorkerLocal,
}

/// One worker's expert pass for one token.
#[derive(Clone, Copy, Debug, PartialEq, Eq, Structural)]
pub struct RemoteFfn {
    pub gpu: usize,
    pub layer: usize,
    pub out: ResultPlace,
    pub k: usize,
    pub expert_intermediate_size: usize,
    pub hidden_size: usize,
    pub gate_up_in_dim: usize,
    pub has_gate: bool,
    pub relu_sq: bool,
    /// Value awaited before the activation is read and signalled with the result.
    pub sequence: u64,
}

/// The pass of worker `w`, which is GPU `w + 1`.
pub open spec fn remote_ffn(
    p: &MoeDecodeParams,
    layer: usize,
    w: nat,
    result_signals: bool,
    sequence: u64,
) -> RemoteFfn {
    RemoteFfn {
        gpu: (w + 1) as usize,
        layer,
        out: if result_signals {
            ResultPlace::WorkerLocal
        } else {
            ResultPlace::OutputSlot { offset: ((w + 1) * p.hidden_size as nat) as usize }
        },
        k: p.k,
        expert_intermediate_size: p.expert_intermediate_size,
        hidden_size: p.hidden_size,
        gate_up_in_dim: if p.gate_up_in_dim == 0 {
            p.hidden_size
        } else {
            p.gate_up_in_dim
        },
        has_gate: p.has_gate_proj,
        relu_sq: p.relu_sq,
        sequence,
    }
}

/// One pass per worker for an expert layer of a decode step.
pub fn moe_worker_calls(
    p: &MoeDecodeParams,
    layer: usize,
    num_workers: usize,
    result_signals: bool,
    sequence: u64,
) -> (r: Vec<RemoteFfn>)
    requires
        num_workers < usize::MAX,
        (num_workers + 1) * p.hidden_size <= usize::MAX,
    ensures
        r@ == Seq::new(
            num_workers as nat,
            |w: int| remote_ffn(p, layer, w as nat, result_signals, sequence),
        ),
{
    let gate_up_in_dim: usize = if p.gate_up_in_dim == 0 {
        p.hidden_size
    } else {
        p.gate_up_in_dim
    };
    let mut r: Vec<RemoteFfn> = Vec::new();
    let mut w: usize = 0;
    while w < num_workers
        invariant
            w <= num_workers,
            num_workers < usize::MAX,
            (num_workers + 1) * p.hidden_size <= usize::MAX,
            gate_up_in_dim == (if p.gate_up_in_dim == 0 {
                p.hidden_size
            } else {
                p.gate_up_in_dim
            }),
            r@.len() == w,
            forall|i: int|
                0 <= i < w ==> r@[i] == remote_ffn(p, layer, i as nat, result_signals, sequence),
        decreases num_workers - w,
    {
        let gpu: usize = w + 1;
        proof {
            arith::lemma_mul_mono(gpu as int, num_workers + 1, p.hidden_size as int);
        }
        let out = if result_signals {
            ResultPlace::WorkerLocal
        } else {
            ResultPlace::OutputSlot { offset: gpu * p.hidden_size }
        };
        r.push(
            RemoteFfn {
                gpu,
                layer,
                out,
                k: p.k,
                expert_intermediate_size: p.expert_intermediate_size,
                hidden_size: p.hidden_size,
                gate_up_in_dim,
                has_gate: p.has_gate_proj,
                relu_sq: p.relu_sq,
                sequence,
            },
        );
        w += 1;
    }
    assert(r@ =~= Seq::new(
        num_workers as nat,
        |i: int| remote_ffn(p, layer, i as nat, result_signals, sequence),
    ));
    r
}

/// Which launches an expert layer waits for: every worker's and GPU 0's, unless
/// waiting for the workers, or for anything, is switched off.
pub open spec fn awaited(
    workers: Seq<AckTarget>,
    gpu0: Option<u32>,
    drop_all: bool,
    drop_workers: bool,
) -> Seq<AckTarget> {
    let own = match gpu0 {
        Some(seq) => seq![AckTarget { gpu: 0, seq }],
        None => Seq::empty(),
    };
    if drop_all {
        Seq::empty()
    } else if drop_workers {
        own
    } else {
        workers + own
    }
}

/// Which launches an expert layer waits for.
pub fn moe_ack_targets(
    workers: Vec<AckTarget>,
    gpu0: Option<u32>,
    drop_all: bool,
    drop_workers: bool,
) -> (r: Vec<AckTarget>)
    ensures
        r@ == awaited(workers@, gpu0, drop_all, drop_workers),
{
    let mut r: Vec<AckTarget> = if drop_all || drop_workers {
        Vec::new()
    } else {
        workers
    };
    if !drop_all {
        match gpu0 {
            Some(seq) => {
                r.push(AckTarget { gpu: 0, seq });
            },
            None => {},
        }
    }
    assert(r@ =~= awaited(workers@, gpu0, drop_all, drop_workers));
    r
}

// ---- laws ----

/// The chunks hold the longest sequence; one fewer would not.
pub proof fn law_chunks_hold_longest(config: &ModelConfig)
    ensures
        config.max_seq_len <= max_chunks(config) * CHUNK_TOKENS,
        max_chunks(config) * CHUNK_TOKENS < config.max_seq_len + CHUNK_TOKENS,
{
    arith::lemma_ceil_div(config.max_seq_len as int, CHUNK_TOKENS as int);
}

/// A setting can shrink the device pool, never grow it past what the longest sequence
/// needs and never empty it.
pub proof fn law_pool_bounded(setting: Option<Seq<char>>, max: nat)
    ensures
        vram_pool_chunks(setting, max) <= max,
        max > 0 ==> vram_pool_chunks(setting, max) > 0,
        setting is None ==> vram_pool_chunks(setting, max) == max,
        host_pool_chunks(setting) matches Some(n) ==> n > 0 && setting is Some,
{
}

/// The widest expert is as wide as every expert, and as wide as one of them where there is
/// any.
pub proof fn law_widest_expert(layers: Seq<LayerConfig>)
    ensures
        forall|i: int|
            0 <= i < layers.len() ==> ((#[trigger] layers[i]).ffn_type matches FfnType::MoE {
                expert_intermediate_size,
                ..
            } ==> expert_intermediate_size <= widest_expert(layers)),
        widest_expert(layers) > 0 ==> exists|i: int|
            0 <= i < layers.len() && ((#[trigger] layers[i]).ffn_type matches FfnType::MoE {
                expert_intermediate_size,
                ..
            } && expert_intermediate_size == widest_expert(layers)),
    decreases layers.len(),
{
    if layers.len() > 0 {
        let front = layers.drop_last();
        law_widest_expert(front);
        assert forall|i: int| 0 <= i < layers.len() implies ((
        #[trigger] layers[i]).ffn_type matches FfnType::MoE { expert_intermediate_size, .. }
            ==> expert_intermediate_size <= widest_expert(layers)) by {
            if i < front.len() {
                assert(front[i] == layers[i]);
            }
        }
        if widest_expert(layers) > 0 {
            if widest_expert(layers) == widest_expert(front) {
                let i = choose|i: int|
                    0 <= i < front.len() && ((#[trigger] front[i]).ffn_type matches FfnType::MoE {
                        expert_intermediate_size,
                        ..
                    } && expert_intermediate_size == widest_expert(front));
                assert(layers[i] == front[i]);
            } else {
                assert(layers[layers.len() - 1] == layers.last());
            }
        }
    }
}

/// In a step, whatever copies signal and whatever sums await is one value, greater than
/// that of any earlier step. No other word changes.
pub proof fn law_signals_match(
    insts: Seq<Instruction>,
    attn_flushes: Seq<usize>,
    moe_copies: Seq<usize>,
    moe_sums: Seq<usize>,
    earlier: u32,
    position: u32,
    i: int,
    w: int,
)
    requires
        earlier < position,
        0 <= w < insts[i]@.len(),
        names(attn_flushes, i) || names(moe_copies, i) ==> COPY_SIGNAL_WORD < insts[i]@.len(),
        names(moe_sums, i) ==> POST_SEQ_WORD < insts[i]@.len(),
    ensures
        ({
            let was = signalled(insts, attn_flushes, moe_copies, moe_sums, earlier, i);
            let now = signalled(insts, attn_flushes, moe_copies, moe_sums, position, i);
            let signals = w == COPY_SIGNAL_WORD && (names(attn_flushes, i) || names(moe_copies, i));
            let awaits = w == POST_SEQ_WORD && names(moe_sums, i);
            &&& now.len() == insts[i]@.len()
            &&& signals || awaits ==> now[w] == position + 1 && was[w] < now[w]
            &&& !signals && !awaits ==> now[w] == insts[i]@[w]
        }),
{
}

/// Workers leave their results apart from each other and from GPU 0's, which come first,
/// or each in its own memory. All run the same layer on the same step.
pub proof fn law_worker_results_apart(
    p: &MoeDecodeParams,
    layer: usize,
    v: nat,
    w: nat,
    result_signals: bool,
    sequence: u64,
)
    requires
        v < w,
        w < usize::MAX,
        (w + 2) * p.hidden_size <= usize::MAX,
    ensures
        ({
            let a = remote_ffn(p, layer, v, result_signals, sequence);
            let b = remote_ffn(p, layer, w, result_signals, sequence);
            &&& 0 < a.gpu < b.gpu
            &&& a == (RemoteFfn { gpu: a.gpu, out: a.out, ..b })
            &&& a.layer == layer
            &&& a.sequence == sequence
            &&& result_signals ==> a.out == ResultPlace::WorkerLocal && b.out == a.out
            &&& !result_signals ==> {
                let (x, y) = (a.out->offset as int, b.out->offset as int);
                &&& a.out is OutputSlot
                &&& b.out is OutputSlot
                &&& p.hidden_size <= x
                &&& x + p.hidden_size <= y
                &&& x == a.gpu * p.hidden_size
            }
            &&& p.hidden_size > 0 ==> a.gate_up_in_dim > 0
        }),
{
    let hs = p.hidden_size as int;
    arith::lemma_scaled_index(v as int + 1, w as int + 1, hs);
    arith::lemma_scaled_index(w as int + 1, w as int + 2, hs);
    arith::lemma_scaled_index(0, v as int + 1, hs);
}

/// Unless waiting is switched off, everything that was fired is awaited; what is awaited
/// was fired.
pub proof fn law_fired_is_awaited(
    workers: Seq<AckTarget>,
    gpu0: Option<u32>,
    drop_all: bool,
    drop_workers: bool,
)
    ensures
        ({
            let r = awaited(workers, gpu0, drop_all, drop_workers);
            &&& !drop_all && !drop_workers ==> forall|t: AckTarget|
                workers.contains(t) ==> #[trigger] r.contains(t)
            &&& !drop_all ==> (gpu0 matches Some(seq) ==> r.contains(AckTarget { gpu: 0, seq }))
            &&& forall|t: AckTarget| #[trigger]
                r.contains(t) ==> !drop_all && (!drop_workers && workers.contains(t) || gpu0
                    == Some(t.seq) && t.gpu == 0)
        }),
{
    let r = awaited(workers, gpu0, drop_all, drop_workers);
    if !drop_all && !drop_workers {
        assert forall|t: AckTarget| workers.contains(t) implies #[trigger] r.contains(t) by {
            let k = workers.index_of(t);
            assert(r[k] == t);
        }
    }
    if !drop_all && gpu0 is Some {
        assert(r[r.len() - 1] == (AckTarget { gpu: 0, seq: gpu0->0 }));
    }
    assert forall|t: AckTarget| #[trigger] r.contains(t) implies !drop_all && (!drop_workers
        && workers.contains(t) || gpu0 == Some(t.seq) && t.gpu == 0) by {
        let k = r.index_of(t);
        if !drop_workers && k < workers.len() {
            assert(workers[k] == t);
        }
    }
}

/// A token fills its chunk exactly when the next one opens another.
pub proof fn law_full_chunk_sealed(
    seq: &crate::paged_kv::sequence::SequenceState,
    t: &crate::paged_kv::chunk::ChunkTable,
    position: u32,
)
    requires
        seq.packed(t),
        seq.chunk_tokens == CHUNK_TOKENS,
        seq.seq_len == position + 1,
    ensures
        fills_chunk(position) <==> seq.needs_new_chunk(t),
{
    let n = seq.chunks@.len() as int;
    let (len, ct) = (seq.seq_len as int, CHUNK_TOKENS as int);
    crate::paged_kv::sequence::law_packed_room(seq, t);
    crate::paged_kv::sequence::law_packed_chunk_count(seq, t);
    crate::arith::lemma_ceil_div(len, ct);
    vstd::arithmetic::div_mod::lemma_fundamental_div_mod(len, ct);
    if len == n * ct {
        vstd::arithmetic::div_mod::lemma_mod_multiples_basic(n, ct);
    }
    if len % ct == 0 {
        assert(ct * n == n * ct) by (nonlinear_arith);
    }
}

} // verus!
