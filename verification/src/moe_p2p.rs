//! Shared buffers of the expert GPUs and the instructions that use them.

use vstd::prelude::*;
use crate::arith;
use crate::model::decode::MoeDecodeParams;
use crate::moe_weights::distribute::DistributedMoeWeights;
use crate::ops::WeightFormat;
use crate::paged_kv::slots::DeviceId;

verus! {

/// Bytes of a work item before its activations: nine words, two routing tables, a
/// word of padding, two pointers and eight acknowledgement flags.
pub const MOE_WORK_QUEUE_FIXED: usize = 16472;

/// Tokens per batched prefill dispatch.
pub const MAX_PREFILL_BATCH: usize = 64;

/// Active experts per token.
pub const MAX_ACTIVE_EXPERTS: usize = 32;

/// Expert entries in a worker's layer table.
pub const MAX_CONFIG_EXPERTS: usize = 512;

/// Elements between two tokens in gate scratch: one cache line.
pub const GATE_SCRATCH_STRIDE: usize = 32;

/// The fixed part of a work item adds up, and its pointers are aligned.
pub proof fn law_work_item_layout()
    ensures
        MOE_WORK_QUEUE_FIXED == 9 * 4 + 2 * (MAX_PREFILL_BATCH * MAX_ACTIVE_EXPERTS * 4) + 4 + 2 * 8
            + 8 * 4,
        (9 * 4 + 2 * (MAX_PREFILL_BATCH * MAX_ACTIVE_EXPERTS * 4) + 4) % 8 == 0,
{
}

// ---- buffer sizes ----

/// Buffers a GPU needs to run experts, in elements.
#[derive(Clone, Copy, Debug, PartialEq, Eq, Structural)]
pub struct ScratchSizes {
    pub local_activation: usize,
    pub scratch_gate: usize,
    pub scratch_up: usize,
    pub scratch_act: usize,
    pub local_output: usize,
}

/// All buffers of the expert GPUs: the work queue in bytes, the rest in elements.
#[derive(Clone, Copy, Debug, PartialEq, Eq, Structural)]
pub struct P2pBuffers {
    pub num_gpus: usize,
    pub work_queue: usize,
    pub seq_counter: usize,
    pub output_slots: usize,
    pub moe_act_uc_handoff: usize,
    pub activation_staging: usize,
    pub activation_staging_vram: usize,
    pub layer_config_ptrs: usize,
    pub per_token_expert_ids: usize,
    pub per_token_expert_weights: usize,
    pub step1_drain_sentinel: usize,
    pub shared_expert_gate_scratch: usize,
    pub gpu0_zero_buffer: usize,
    /// The same on every GPU.
    pub scratch: ScratchSizes,
}

/// The sizes are addressable, and the longest buffer that is cleared on GPU 0 is
/// the staged batch.
pub open spec fn buffers_fit(
    num_workers: nat,
    hidden: nat,
    in_dim: nat,
    inter: nat,
) -> bool {
    &&& num_workers < usize::MAX
    &&& MAX_PREFILL_BATCH * (num_workers + 1) <= usize::MAX
    &&& MAX_PREFILL_BATCH * (num_workers + 1) * hidden <= usize::MAX
    &&& MAX_PREFILL_BATCH * hidden <= usize::MAX
    &&& MOE_WORK_QUEUE_FIXED + MAX_PREFILL_BATCH * in_dim * 4 <= usize::MAX
    &&& inter <= MAX_PREFILL_BATCH * in_dim
    &&& hidden <= MAX_PREFILL_BATCH * in_dim
    &&& GATE_SCRATCH_STRIDE <= in_dim
}

pub open spec fn larger(a: usize, b: usize) -> usize {
    if a >= b {
        a
    } else {
        b
    }
}

/// What is allocated for the given sizes.
pub open spec fn buffers_of(
    num_workers: nat,
    hidden: usize,
    in_dim: usize,
    inter: usize,
    num_layers: usize,
) -> P2pBuffers {
    P2pBuffers {
        num_gpus: (num_workers + 1) as usize,
        work_queue: (MOE_WORK_QUEUE_FIXED + MAX_PREFILL_BATCH * in_dim * 4) as usize,
        seq_counter: 1,
        output_slots: (MAX_PREFILL_BATCH * (num_workers + 1) * hidden) as usize,
        moe_act_uc_handoff: (MAX_PREFILL_BATCH * hidden) as usize,
        activation_staging: (MAX_PREFILL_BATCH * in_dim) as usize,
        activation_staging_vram: (MAX_PREFILL_BATCH * in_dim) as usize,
        layer_config_ptrs: num_layers,
        per_token_expert_ids: (MAX_PREFILL_BATCH * MAX_ACTIVE_EXPERTS) as usize,
        per_token_expert_weights: (MAX_PREFILL_BATCH * MAX_ACTIVE_EXPERTS) as usize,
        step1_drain_sentinel: 1,
        shared_expert_gate_scratch: (MAX_PREFILL_BATCH * GATE_SCRATCH_STRIDE) as usize,
        gpu0_zero_buffer: hidden,
        scratch: ScratchSizes {
            local_activation: in_dim,
            scratch_gate: larger(inter, in_dim),
            scratch_up: inter,
            scratch_act: inter,
            local_output: hidden,
        },
    }
}

/// One scratch buffer serves gate output and down output in turn; it holds
/// either.
pub proof fn law_scratch_gate_holds_both(
    num_workers: nat,
    hidden: usize,
    in_dim: usize,
    inter: usize,
    num_layers: usize,
)
    ensures
        buffers_of(num_workers, hidden, in_dim, inter, num_layers).scratch.scratch_gate >= inter,
        buffers_of(num_workers, hidden, in_dim, inter, num_layers).scratch.scratch_gate >= in_dim,
{
}

/// The slot of any token and GPU lies inside the output slots.
pub proof fn law_output_slot_inside(
    num_workers: nat,
    hidden: usize,
    in_dim: usize,
    inter: usize,
    num_layers: usize,
    token: int,
    gpu: int,
)
    requires
        buffers_fit(num_workers, hidden as nat, in_dim as nat, inter as nat),
        0 <= token < MAX_PREFILL_BATCH,
        0 <= gpu <= num_workers,
    ensures
        (token * (num_workers + 1) + gpu) * hidden + hidden <= buffers_of(
            num_workers,
            hidden,
            in_dim,
            inter,
            num_layers,
        ).output_slots,
{
    let n = num_workers as int + 1;
    arith::lemma_scaled_index(token, MAX_PREFILL_BATCH as int, n);
    arith::lemma_scaled_index(token * n + gpu, MAX_PREFILL_BATCH * n, hidden as int);
}

// ---- layer tables ----

/// An expert's matrices on a GPU; zero where the expert lives elsewhere.
#[derive(Clone, Copy, Debug, PartialEq, Eq, Structural)]
pub struct MoeExpertEntry {
    pub global_expert_id: u32,
    pub gate_up_ptr: u64,
    pub down_ptr: u64,
}

/// What a GPU needs to know of one layer.
pub struct MoeWorkerConfig {
    pub my_gpu_id: u32,
    pub num_experts_local: u32,
    pub gate_up_row_stride: u32,
    pub hidden_size: u32,
    pub expert_intermediate_size: u32,
    pub weight_format: u32,
    pub entries: Vec<MoeExpertEntry>,
}

/// Where a GPU's expert buffers start.
#[derive(Clone, Copy, Debug, PartialEq, Eq, Structural)]
pub struct ExpertBases {
    pub gate_up: u64,
    pub down: u64,
}

/// A layer's experts and, per GPU, where their buffers start.
pub struct PlacedExperts {
    pub dist: DistributedMoeWeights,
    pub bases: Vec<ExpertBases>,
}

/// Slot of an expert on a GPU, if it lives there.
pub open spec fn slot_on(layer: &PlacedExperts, gpu: int, e: int) -> Option<usize> {
    layer.dist.gpus@[gpu].slot_map@[e]
}

/// The table of `gpu` can be built: enough entries, and every local expert's
/// matrices are addressable.
pub open spec fn table_ok(layer: &PlacedExperts, gpu: int) -> bool {
    let d = layer.dist;
    &&& d.num_experts <= MAX_CONFIG_EXPERTS
    &&& 0 <= gpu < d.gpus@.len()
    &&& gpu < layer.bases@.len()
    &&& d.num_experts <= d.gpus@[gpu].slot_map@.len()
    &&& forall|e: int|
        0 <= e < d.num_experts ==> (#[trigger] slot_on(layer, gpu, e) matches Some(s) ==> {
            &&& s * d.gate_up_expert_stride <= usize::MAX
            &&& s * d.down_expert_stride <= usize::MAX
            &&& layer.bases@[gpu].gate_up + s * d.gate_up_expert_stride <= u64::MAX
            &&& layer.bases@[gpu].down + s * d.down_expert_stride <= u64::MAX
        })
}

/// No expert.
pub open spec fn empty_entry() -> MoeExpertEntry {
    MoeExpertEntry { global_expert_id: 0, gate_up_ptr: 0, down_ptr: 0 }
}

/// Entry `e` of a GPU's table.
pub open spec fn entry_of(layer: &PlacedExperts, gpu: int, e: int) -> MoeExpertEntry {
    let base = layer.bases@[gpu];
    if e < layer.dist.num_experts {
        match slot_on(layer, gpu, e) {
            Some(s) => MoeExpertEntry {
                global_expert_id: e as u32,
                gate_up_ptr: (base.gate_up + s * layer.dist.gate_up_expert_stride) as u64,
                down_ptr: (base.down + s * layer.dist.down_expert_stride) as u64,
            },
            None => empty_entry(),
        }
    } else {
        empty_entry()
    }
}

/// Whether any of the first `n` experts lives on `gpu`.
pub open spec fn any_local(layer: &PlacedExperts, gpu: int, n: int) -> bool {
    exists|e: int| 0 <= e < n && #[trigger] slot_on(layer, gpu, e) is Some
}

/// Code of a weight format in the tables.
pub open spec fn format_code(f: WeightFormat) -> u32 {
    if f == WeightFormat::Rnf4G128 {
        1
    } else {
        0
    }
}

/// What a GPU's table holds for a layer.
pub open spec fn is_config(
    c: &MoeWorkerConfig,
    layer: &PlacedExperts,
    gpu: int,
    hidden: usize,
    inter: usize,
) -> bool {
    let n = layer.dist.num_experts as int;
    &&& c.my_gpu_id == gpu as u32
    &&& c.num_experts_local == if any_local(layer, gpu, n) {
        layer.dist.gpus@[gpu].local_expert_count as u32
    } else {
        0
    }
    &&& c.gate_up_row_stride == layer.dist.gate_up_row_stride as u32
    &&& c.hidden_size == hidden as u32
    &&& c.expert_intermediate_size == inter as u32
    &&& c.weight_format == format_code(layer.dist.weight_format)
    &&& c.entries@ == Seq::new(
        MAX_CONFIG_EXPERTS as nat,
        |e: int| entry_of(layer, gpu, e),
    )
}

/// Builds a GPU's table of one layer.
pub fn layer_config(layer: &PlacedExperts, gpu: usize, hidden: usize, inter: usize) -> (c:
    MoeWorkerConfig)
    requires
        table_ok(layer, gpu as int),
    ensures
        is_config(&c, layer, gpu as int, hidden, inter),
{
    let n: usize = layer.dist.num_experts;
    let base = layer.bases[gpu];
    let mut entries: Vec<MoeExpertEntry> = Vec::new();
    let mut local: u32 = 0;
    let mut e: usize = 0;
    while e < MAX_CONFIG_EXPERTS
        invariant
            e <= MAX_CONFIG_EXPERTS,
            n == layer.dist.num_experts,
            table_ok(layer, gpu as int),
            base == layer.bases@[gpu as int],
            entries@.len() == e,
            forall|k: int| 0 <= k < e ==> entries@[k] == entry_of(layer, gpu as int, k),
            local == if any_local(
                layer,
                gpu as int,
                if e <= n {
                    e as int
                } else {
                    n as int
                },
            ) {
                layer.dist.gpus@[gpu as int].local_expert_count as u32
            } else {
                0
            },
        decreases MAX_CONFIG_EXPERTS - e,
    {
        let entry = if e < n {
            let found = layer.dist.gpus[gpu].slot_map[e];
            assert(found == slot_on(layer, gpu as int, e as int));
            assert(forall|k: int| 0 <= k < e ==> #[trigger] slot_on(layer, gpu as int, k) is Some
                ==> any_local(layer, gpu as int, e as int));
            match found {
                Some(s) => {
                    local = #[verifier::truncate] (layer.dist.gpus[gpu].local_expert_count as u32);
                    MoeExpertEntry {
                        global_expert_id: e as u32,
                        gate_up_ptr: base.gate_up + (s * layer.dist.gate_up_expert_stride) as u64,
                        down_ptr: base.down + (s * layer.dist.down_expert_stride) as u64,
                    }
                },
                None => MoeExpertEntry { global_expert_id: 0, gate_up_ptr: 0, down_ptr: 0 },
            }
        } else {
            MoeExpertEntry { global_expert_id: 0, gate_up_ptr: 0, down_ptr: 0 }
        };
        proof {
            if e < n {
                let gi = gpu as int;
                if any_local(layer, gi, e as int) {
                    let k = choose|k: int|
                        0 <= k < e && #[trigger] slot_on(layer, gi, k) is Some;
                    assert(0 <= k < e + 1 && slot_on(layer, gi, k) is Some);
                }
                if slot_on(layer, gi, e as int) is Some {
                    assert(any_local(layer, gi, e + 1));
                } else if any_local(layer, gi, e + 1) {
                    let k = choose|k: int|
                        0 <= k < e + 1 && #[trigger] slot_on(layer, gi, k) is Some;
                    assert(0 <= k < e && slot_on(layer, gi, k) is Some);
                }
            }
        }
        entries.push(entry);
        e += 1;
    }
    assert(entries@ =~= Seq::new(
        MAX_CONFIG_EXPERTS as nat,
        |k: int| entry_of(layer, gpu as int, k),
    ));
    let weight_format: u32 = match layer.dist.weight_format {
        WeightFormat::Rnf4G128 => 1,
        _ => 0,
    };
    MoeWorkerConfig {
        my_gpu_id: #[verifier::truncate] (gpu as u32),
        num_experts_local: local,
        gate_up_row_stride: #[verifier::truncate] (layer.dist.gate_up_row_stride as u32),
        hidden_size: #[verifier::truncate] (hidden as u32),
        expert_intermediate_size: #[verifier::truncate] (inter as u32),
        weight_format,
        entries,
    }
}

/// Layer `l` has experts.
pub open spec fn has_experts(layers: Seq<Option<PlacedExperts>>, l: int) -> bool {
    0 <= l < layers.len() && layers[l] is Some
}

/// The tables of `gpu` can be built for the first `n` layers.
pub open spec fn tables_ok(layers: Seq<Option<PlacedExperts>>, gpu: int, n: int) -> bool {
    forall|l: int|
        0 <= l < layers.len() && l < n && (#[trigger] layers[l]) is Some ==> table_ok(
            &layers[l]->0,
            gpu,
        )
}

/// Tables of GPU `gpu`: one for each layer with experts.
pub open spec fn are_tables(
    t: Seq<Option<MoeWorkerConfig>>,
    layers: Seq<Option<PlacedExperts>>,
    gpu: int,
    num_layers: nat,
    hidden: usize,
    inter: usize,
) -> bool {
    &&& t.len() == num_layers
    &&& forall|l: int|
        0 <= l < num_layers ==> {
            &&& (#[trigger] t[l]) is Some <==> has_experts(layers, l)
            &&& t[l] is Some ==> is_config(&t[l]->0, &layers[l]->0, gpu, hidden, inter)
        }
}

/// Builds a GPU's tables: one for each of the first `num_layers` layers that has
/// experts, none for the others.
pub fn build_layer_configs(
    gpu: usize,
    num_layers: usize,
    layers: &Vec<Option<PlacedExperts>>,
    hidden: usize,
    inter: usize,
) -> (r: Vec<Option<MoeWorkerConfig>>)
    requires
        tables_ok(layers@, gpu as int, num_layers as int),
    ensures
        are_tables(r@, layers@, gpu as int, num_layers as nat, hidden, inter),
{
    let mut r: Vec<Option<MoeWorkerConfig>> = Vec::new();
    let mut l: usize = 0;
    while l < num_layers
        invariant
            l <= num_layers,
            tables_ok(layers@, gpu as int, num_layers as int),
            are_tables(r@, layers@, gpu as int, l as nat, hidden, inter),
        decreases num_layers - l,
    {
        if l < layers.len() {
            match &layers[l] {
                Some(layer) => {
                    r.push(Some(layer_config(layer, gpu, hidden, inter)));
                },
                None => {
                    r.push(None);
                },
            }
        } else {
            r.push(None);
        }
        l += 1;
    }
    r
}

/// Local experts in different slots have matrices that do not overlap.
pub proof fn law_local_experts_disjoint(layer: &PlacedExperts, gpu: int, a: int, b: int)
    requires
        table_ok(layer, gpu),
        0 <= a < layer.dist.num_experts,
        0 <= b < layer.dist.num_experts,
        slot_on(layer, gpu, a) is Some,
        slot_on(layer, gpu, b) is Some,
        slot_on(layer, gpu, a) != slot_on(layer, gpu, b),
    ensures
        ({
            let (x, y) = (entry_of(layer, gpu, a), entry_of(layer, gpu, b));
            let (gu, dn) = (layer.dist.gate_up_expert_stride, layer.dist.down_expert_stride);
            &&& x.gate_up_ptr + gu <= y.gate_up_ptr || y.gate_up_ptr + gu <= x.gate_up_ptr
            &&& x.down_ptr + dn <= y.down_ptr || y.down_ptr + dn <= x.down_ptr
        }),
{
    let s = slot_on(layer, gpu, a)->0 as int;
    let t = slot_on(layer, gpu, b)->0 as int;
    let (gu, dn) = (
        layer.dist.gate_up_expert_stride as int,
        layer.dist.down_expert_stride as int,
    );
    if s < t {
        arith::lemma_scaled_index(s, t, gu);
        arith::lemma_scaled_index(s, t, dn);
    } else {
        arith::lemma_scaled_index(t, s, gu);
        arith::lemma_scaled_index(t, s, dn);
    }
}

// ---- the context ----

/// Memory that was reserved on a GPU, by address.
pub struct GpuMemory {
    /// One pointer per layer.
    pub layer_config_ptrs: usize,
    /// A table for each layer with experts, in order.
    pub tables: Vec<u64>,
    pub local_activation: usize,
    pub local_output: usize,
    pub scratch_gate: usize,
    pub scratch_up: usize,
    pub scratch_act: usize,
}

/// A GPU's expert buffers, by address.
pub struct MoeWorkerGpu {
    pub device: DeviceId,
    /// Table of the layers' configurations, in the GPU's own memory.
    pub layer_config_ptrs: usize,
    /// What that table holds: where each layer's configuration is, 0 without experts.
    pub layer_config_ptrs_host: Vec<u64>,
    pub local_activation: usize,
    pub local_output: usize,
    pub scratch_gate: usize,
    pub scratch_up: usize,
    pub scratch_act: usize,
}

/// The expert GPUs: GPU 0 and its workers, worker `w` being GPU `w + 1`.
pub struct MoeP2pContext {
    pub gpu0: MoeWorkerGpu,
    pub workers: Vec<MoeWorkerGpu>,
    /// Address of the staging buffer as each GPU sees it.
    pub activation_staging: Vec<usize>,
    pub num_gpus: usize,
    pub hidden_size: usize,
    /// Routing of each layer's decode steps, once the program is compiled.
    pub decode_params: Vec<Option<MoeDecodeParams>>,
}

/// A buffer on GPU 0 or in host memory that all GPUs see.
#[derive(Clone, Copy, Debug, PartialEq, Eq, Structural)]
pub enum P2pBuffer {
    ZeroBuffer,
    ActivationStagingVram,
    ScratchGate,
    ScratchUp,
    ScratchAct,
    LocalOutput,
    SharedExpertGateScratch,
    OutputSlots,
    MoeActUcHandoff,
    ActivationStaging,
    PerTokenExpertIds,
    PerTokenExpertWeights,
}

/// Elements of a buffer that start as zero.
#[derive(Clone, Copy, Debug, PartialEq, Eq, Structural)]
pub struct ZeroFill {
    pub buffer: P2pBuffer,
    pub len: usize,
}

/// A context with what has to be written before its first use: each GPU's tables,
/// and zeros.
pub struct P2pStart {
    pub context: MoeP2pContext,
    /// Per GPU and layer; a table goes to the address that the GPU's pointers give.
    pub tables: Vec<Vec<Option<MoeWorkerConfig>>>,
    pub zeroed: Vec<ZeroFill>,
}

/// How many of the first `n` layers have experts.
pub open spec fn expert_layers(layers: Seq<Option<PlacedExperts>>, n: int) -> nat
    decreases n,
{
    if n <= 0 {
        0
    } else {
        expert_layers(layers, n - 1) + if has_experts(layers, n - 1) {
            1nat
        } else {
            0nat
        }
    }
}

/// Where the configuration of layer `l` is.
pub open spec fn pointer_of(
    layers: Seq<Option<PlacedExperts>>,
    tables: Seq<u64>,
    l: int,
) -> u64 {
    if has_experts(layers, l) {
        tables[expert_layers(layers, l) as int]
    } else {
        0
    }
}

proof fn lemma_expert_layers_mono(layers: Seq<Option<PlacedExperts>>, a: int, b: int)
    requires
        0 <= a <= b,
    ensures
        expert_layers(layers, a) <= expert_layers(layers, b),
    decreases b,
{
    if a < b {
        lemma_expert_layers_mono(layers, a, b - 1);
    }
}

/// Whole buffers that start as zero: every one of GPU 0 that is read before it is
/// written, and what the GPUs share.
pub open spec fn zero_fills(b: P2pBuffers) -> Seq<ZeroFill> {
    seq![
        ZeroFill { buffer: P2pBuffer::ZeroBuffer, len: b.gpu0_zero_buffer },
        ZeroFill { buffer: P2pBuffer::ActivationStagingVram, len: b.activation_staging_vram },
        ZeroFill { buffer: P2pBuffer::ScratchGate, len: b.scratch.scratch_gate },
        ZeroFill { buffer: P2pBuffer::ScratchUp, len: b.scratch.scratch_up },
        ZeroFill { buffer: P2pBuffer::ScratchAct, len: b.scratch.scratch_act },
        ZeroFill { buffer: P2pBuffer::LocalOutput, len: b.scratch.local_output },
        ZeroFill { buffer: P2pBuffer::SharedExpertGateScratch, len: b.shared_expert_gate_scratch },
        ZeroFill { buffer: P2pBuffer::OutputSlots, len: b.output_slots },
        ZeroFill { buffer: P2pBuffer::MoeActUcHandoff, len: b.moe_act_uc_handoff },
        ZeroFill { buffer: P2pBuffer::ActivationStaging, len: b.activation_staging },
        ZeroFill { buffer: P2pBuffer::PerTokenExpertIds, len: b.per_token_expert_ids },
        ZeroFill { buffer: P2pBuffer::PerTokenExpertWeights, len: b.per_token_expert_weights },
    ]
}

fn zero_fills_exec(b: &P2pBuffers) -> (r: Vec<ZeroFill>)
    ensures
        r@ == zero_fills(*b),
{
    let mut r: Vec<ZeroFill> = Vec::new();
    r.push(ZeroFill { buffer: P2pBuffer::ZeroBuffer, len: b.gpu0_zero_buffer });
    r.push(ZeroFill { buffer: P2pBuffer::ActivationStagingVram, len: b.activation_staging_vram });
    r.push(ZeroFill { buffer: P2pBuffer::ScratchGate, len: b.scratch.scratch_gate });
    r.push(ZeroFill { buffer: P2pBuffer::ScratchUp, len: b.scratch.scratch_up });
    r.push(ZeroFill { buffer: P2pBuffer::ScratchAct, len: b.scratch.scratch_act });
    r.push(ZeroFill { buffer: P2pBuffer::LocalOutput, len: b.scratch.local_output });
    r.push(
        ZeroFill { buffer: P2pBuffer::SharedExpertGateScratch, len: b.shared_expert_gate_scratch },
    );
    r.push(ZeroFill { buffer: P2pBuffer::OutputSlots, len: b.output_slots });
    r.push(ZeroFill { buffer: P2pBuffer::MoeActUcHandoff, len: b.moe_act_uc_handoff });
    r.push(ZeroFill { buffer: P2pBuffer::ActivationStaging, len: b.activation_staging });
    r.push(ZeroFill { buffer: P2pBuffer::PerTokenExpertIds, len: b.per_token_expert_ids });
    r.push(ZeroFill { buffer: P2pBuffer::PerTokenExpertWeights, len: b.per_token_expert_weights });
    assert(r@ =~= zero_fills(*b));
    r
}

impl GpuMemory {
    /// There is a table for each of the first `n` layers that has experts.
    pub open spec fn serves(&self, layers: Seq<Option<PlacedExperts>>, n: int) -> bool {
        &&& self.tables@.len() == expert_layers(layers, n)
        &&& forall|k: int| 0 <= k < self.tables@.len() ==> (#[trigger] self.tables@[k]) != 0
    }
}

impl MoeWorkerGpu {
    /// The GPU on `device` over the memory `m`, with a configuration exactly for the
    /// layers that have experts.
    pub open spec fn is_over(
        &self,
        device: DeviceId,
        m: &GpuMemory,
        layers: Seq<Option<PlacedExperts>>,
        num_layers: nat,
    ) -> bool {
        &&& self.device == device
        &&& self.layer_config_ptrs == m.layer_config_ptrs
        &&& self.layer_config_ptrs_host@ == Seq::new(
            num_layers,
            |l: int| pointer_of(layers, m.tables@, l),
        )
        &&& forall|l: int|
            0 <= l < num_layers ==> ((#[trigger] self.layer_config_ptrs_host@[l]) != 0
                <==> has_experts(layers, l))
        &&& self.local_activation == m.local_activation
        &&& self.local_output == m.local_output
        &&& self.scratch_gate == m.scratch_gate
        &&& self.scratch_up == m.scratch_up
        &&& self.scratch_act == m.scratch_act
    }

    fn over(
        device: DeviceId,
        m: &GpuMemory,
        layers: &Vec<Option<PlacedExperts>>,
        num_layers: usize,
    ) -> (r: Self)
        requires
            m.serves(layers@, num_layers as int),
        ensures
            r.is_over(device, m, layers@, num_layers as nat),
    {
        let mut host: Vec<u64> = Vec::new();
        let mut used: usize = 0;
        let mut l: usize = 0;
        while l < num_layers
            invariant
                l <= num_layers,
                m.serves(layers@, num_layers as int),
                used == expert_layers(layers@, l as int),
                used <= l,
                host@.len() == l,
                forall|k: int| 0 <= k < l ==> host@[k] == pointer_of(layers@, m.tables@, k),
                forall|k: int|
                    0 <= k < l ==> ((#[trigger] host@[k]) != 0 <==> has_experts(layers@, k)),
            decreases num_layers - l,
        {
            proof {
                lemma_expert_layers_mono(layers@, l + 1, num_layers as int);
            }
            if l < layers.len() && layers[l].is_some() {
                host.push(m.tables[used]);
                used += 1;
            } else {
                host.push(0);
            }
            l += 1;
        }
        assert(host@ =~= Seq::new(
            num_layers as nat,
            |k: int| pointer_of(layers@, m.tables@, k),
        ));
        MoeWorkerGpu {
            device,
            layer_config_ptrs: m.layer_config_ptrs,
            layer_config_ptrs_host: host,
            local_activation: m.local_activation,
            local_output: m.local_output,
            scratch_gate: m.scratch_gate,
            scratch_up: m.scratch_up,
            scratch_act: m.scratch_act,
        }
    }
}

/// A pass over the experts of one token. A wait address of zero means no wait.
#[derive(Clone, Copy, Debug, PartialEq, Eq, Structural)]
pub struct FfnRemote {
    pub activation: usize,
    pub output: usize,
    pub expert_ids: usize,
    pub expert_weights: usize,
    pub config_array: usize,
    pub layer: u64,
    pub local_activation: usize,
    pub local_output: usize,
    pub scratch_gate: usize,
    pub scratch_up: usize,
    pub scratch_act: usize,
    pub k: u32,
    pub expert_intermediate_size: u32,
    pub hidden_size: u32,
    pub gate_up_in_dim: u32,
    pub has_gate_proj: bool,
    pub relu_sq: bool,
    pub wait_ptr: usize,
    pub wait_seq: u64,
}

/// What a pass is told, apart from the GPU's own buffers.
#[derive(Clone, Copy, Debug, PartialEq, Eq, Structural)]
pub struct FfnCall {
    pub layer: usize,
    pub activation: usize,
    pub output: usize,
    pub expert_ids: usize,
    pub expert_weights: usize,
    pub k: usize,
    pub expert_intermediate_size: usize,
    pub hidden_size: usize,
    pub gate_up_in_dim: usize,
    pub has_gate_proj: bool,
    pub relu_sq: bool,
    pub wait_ptr: usize,
    pub wait_seq: u64,
}

/// The pass on the GPU whose buffers are `own`.
pub open spec fn remote_inst(own: MoeWorkerGpu, call: FfnCall) -> FfnRemote {
    FfnRemote {
        activation: call.activation,
        output: call.output,
        expert_ids: call.expert_ids,
        expert_weights: call.expert_weights,
        config_array: own.layer_config_ptrs,
        layer: call.layer as u64,
        local_activation: own.local_activation,
        local_output: own.local_output,
        scratch_gate: own.scratch_gate,
        scratch_up: own.scratch_up,
        scratch_act: own.scratch_act,
        k: call.k as u32,
        expert_intermediate_size: call.expert_intermediate_size as u32,
        hidden_size: call.hidden_size as u32,
        gate_up_in_dim: call.gate_up_in_dim as u32,
        has_gate_proj: call.has_gate_proj,
        relu_sq: call.relu_sq,
        wait_ptr: call.wait_ptr,
        wait_seq: call.wait_seq,
    }
}

fn remote_inst_exec(own: &MoeWorkerGpu, call: &FfnCall) -> (r: FfnRemote)
    ensures
        r == remote_inst(*own, *call),
{
    FfnRemote {
        activation: call.activation,
        output: call.output,
        expert_ids: call.expert_ids,
        expert_weights: call.expert_weights,
        config_array: own.layer_config_ptrs,
        layer: call.layer as u64,
        local_activation: own.local_activation,
        local_output: own.local_output,
        scratch_gate: own.scratch_gate,
        scratch_up: own.scratch_up,
        scratch_act: own.scratch_act,
        k: #[verifier::truncate] (call.k as u32),
        expert_intermediate_size: #[verifier::truncate] (call.expert_intermediate_size as u32),
        hidden_size: #[verifier::truncate] (call.hidden_size as u32),
        gate_up_in_dim: #[verifier::truncate] (call.gate_up_in_dim as u32),
        has_gate_proj: call.has_gate_proj,
        relu_sq: call.relu_sq,
        wait_ptr: call.wait_ptr,
        wait_seq: call.wait_seq,
    }
}

impl MoeP2pContext {
    /// Every GPU has its view of the staging buffer.
    pub open spec fn wf(&self) -> bool {
        &&& self.num_gpus == self.workers@.len() + 1
        &&& self.activation_staging@.len() == self.num_gpus
    }

    /// Sizes of all buffers that the context will hold.
    pub fn buffers(
        num_workers: usize,
        hidden_size: usize,
        gate_up_in_dim: usize,
        expert_intermediate_size: usize,
        num_total_layers: usize,
    ) -> (r: P2pBuffers)
        requires
            buffers_fit(
                num_workers as nat,
                hidden_size as nat,
                gate_up_in_dim as nat,
                expert_intermediate_size as nat,
            ),
        ensures
            r == buffers_of(
                num_workers as nat,
                hidden_size,
                gate_up_in_dim,
                expert_intermediate_size,
                num_total_layers,
            ),
    {
        let num_gpus: usize = num_workers + 1;
        let staged: usize = MAX_PREFILL_BATCH * gate_up_in_dim;
        let scratch_gate: usize = if expert_intermediate_size >= gate_up_in_dim {
            expert_intermediate_size
        } else {
            gate_up_in_dim
        };
        P2pBuffers {
            num_gpus,
            work_queue: MOE_WORK_QUEUE_FIXED + staged * 4,
            seq_counter: 1,
            output_slots: MAX_PREFILL_BATCH * num_gpus * hidden_size,
            moe_act_uc_handoff: MAX_PREFILL_BATCH * hidden_size,
            activation_staging: staged,
            activation_staging_vram: staged,
            layer_config_ptrs: num_total_layers,
            per_token_expert_ids: MAX_PREFILL_BATCH * MAX_ACTIVE_EXPERTS,
            per_token_expert_weights: MAX_PREFILL_BATCH * MAX_ACTIVE_EXPERTS,
            step1_drain_sentinel: 1,
            shared_expert_gate_scratch: MAX_PREFILL_BATCH * GATE_SCRATCH_STRIDE,
            gpu0_zero_buffer: hidden_size,
            scratch: ScratchSizes {
                local_activation: gate_up_in_dim,
                scratch_gate,
                scratch_up: expert_intermediate_size,
                scratch_act: expert_intermediate_size,
                local_output: hidden_size,
            },
        }
    }

    /// Sets GPU 0 and its workers up over the memory that was reserved for them, with
    /// tables for the layers with experts. Memory and views of the staging buffer come
    /// in GPU order, GPU 0 first. Decode parameters follow when the program is compiled.
    pub fn init(
        gpu0: DeviceId,
        worker_devices: &[DeviceId],
        hidden_size: usize,
        gate_up_in_dim: usize,
        expert_intermediate_size: usize,
        num_total_layers: usize,
        layers: &Vec<Option<PlacedExperts>>,
        memory: &Vec<GpuMemory>,
        activation_staging: Vec<usize>,
    ) -> (r: P2pStart)
        requires
            buffers_fit(
                worker_devices@.len(),
                hidden_size as nat,
                gate_up_in_dim as nat,
                expert_intermediate_size as nat,
            ),
            memory@.len() == worker_devices@.len() + 1,
            activation_staging@.len() == worker_devices@.len() + 1,
            forall|g: int|
                0 <= g < memory@.len() ==> (#[trigger] memory@[g]).serves(
                    layers@,
                    num_total_layers as int,
                ),
            forall|g: int|
                0 <= g < memory@.len() ==> #[trigger] tables_ok(
                    layers@,
                    g,
                    num_total_layers as int,
                ),
        ensures
            r.context.wf(),
            r.context.num_gpus == worker_devices@.len() + 1,
            r.context.gpu0.is_over(gpu0, &memory@[0], layers@, num_total_layers as nat),
            r.context.workers@.len() == worker_devices@.len(),
            forall|w: int|
                0 <= w < worker_devices@.len() ==> (#[trigger] r.context.workers@[w]).is_over(
                    worker_devices@[w],
                    &memory@[w + 1],
                    layers@,
                    num_total_layers as nat,
                ),
            r.context.activation_staging@ == activation_staging@,
            r.context.hidden_size == hidden_size,
            r.context.decode_params@ == Seq::new(
                num_total_layers as nat,
                |l: int| None::<MoeDecodeParams>,
            ),
            r.tables@.len() == worker_devices@.len() + 1,
            forall|g: int|
                0 <= g < r.tables@.len() ==> are_tables(
                    (#[trigger] r.tables@[g])@,
                    layers@,
                    g,
                    num_total_layers as nat,
                    hidden_size,
                    expert_intermediate_size,
                ),
            r.zeroed@ == zero_fills(
                buffers_of(
                    worker_devices@.len(),
                    hidden_size,
                    gate_up_in_dim,
                    expert_intermediate_size,
                    num_total_layers,
                ),
            ),
    {
        let num_workers: usize = worker_devices.len();
        let sizes = Self::buffers(
            num_workers,
            hidden_size,
            gate_up_in_dim,
            expert_intermediate_size,
            num_total_layers,
        );
        let mut tables: Vec<Vec<Option<MoeWorkerConfig>>> = Vec::new();
        let mut g: usize = 0;
        while g < memory.len()
            invariant
                g <= memory@.len(),
                forall|k: int|
                    0 <= k < memory@.len() ==> #[trigger] tables_ok(
                        layers@,
                        k,
                        num_total_layers as int,
                    ),
                tables@.len() == g,
                forall|k: int|
                    0 <= k < g ==> are_tables(
                        (#[trigger] tables@[k])@,
                        layers@,
                        k,
                        num_total_layers as nat,
                        hidden_size,
                        expert_intermediate_size,
                    ),
            decreases memory@.len() - g,
        {
            assert(tables_ok(layers@, g as int, num_total_layers as int));
            tables.push(
                build_layer_configs(
                    g,
                    num_total_layers,
                    layers,
                    hidden_size,
                    expert_intermediate_size,
                ),
            );
            g += 1;
        }
        let first = MoeWorkerGpu::over(gpu0, &memory[0], layers, num_total_layers);
        let mut workers: Vec<MoeWorkerGpu> = Vec::new();
        let mut w: usize = 0;
        while w < num_workers
            invariant
                w <= num_workers,
                num_workers == worker_devices@.len(),
                memory@.len() == num_workers + 1,
                forall|k: int|
                    0 <= k < memory@.len() ==> (#[trigger] memory@[k]).serves(
                        layers@,
                        num_total_layers as int,
                    ),
                workers@.len() == w,
                forall|k: int|
                    0 <= k < w ==> (#[trigger] workers@[k]).is_over(
                        worker_devices@[k],
                        &memory@[k + 1],
                        layers@,
                        num_total_layers as nat,
                    ),
            decreases num_workers - w,
        {
            workers.push(
                MoeWorkerGpu::over(worker_devices[w], &memory[w + 1], layers, num_total_layers),
            );
            w += 1;
        }
        let mut decode_params: Vec<Option<MoeDecodeParams>> = Vec::new();
        let mut l: usize = 0;
        while l < num_total_layers
            invariant
                l <= num_total_layers,
                decode_params@ == Seq::new(l as nat, |k: int| None::<MoeDecodeParams>),
            decreases num_total_layers - l,
        {
            decode_params.push(None);
            assert(decode_params@ =~= Seq::new((l + 1) as nat, |k: int| None::<MoeDecodeParams>));
            l += 1;
        }
        let context = MoeP2pContext {
            gpu0: first,
            workers,
            activation_staging,
            num_gpus: num_workers + 1,
            hidden_size,
            decode_params,
        };
        P2pStart { context, tables, zeroed: zero_fills_exec(&sizes) }
    }

    /// The staging buffer as worker `worker_idx` sees it.
    pub fn activation_staging_dev_ptr_for(&self, worker_idx: usize) -> (r: usize)
        requires
            self.wf(),
            worker_idx < self.workers@.len(),
        ensures
            r == self.activation_staging@[worker_idx + 1],
    {
        self.activation_staging[worker_idx + 1]
    }

    /// The output buffer of worker `worker_idx`.
    pub fn local_output_ptr_for(&self, worker_idx: usize) -> (r: usize)
        requires
            worker_idx < self.workers@.len(),
        ensures
            r == self.workers@[worker_idx as int].local_output,
    {
        self.workers[worker_idx].local_output
    }

    /// A pass over one token's experts on worker `worker_idx`.
    pub fn build_ffn_remote_inst(&self, worker_idx: usize, call: &FfnCall) -> (r: FfnRemote)
        requires
            worker_idx < self.workers@.len(),
        ensures
            r == remote_inst(self.workers@[worker_idx as int], *call),
    {
        remote_inst_exec(&self.workers[worker_idx], call)
    }

    /// The same pass on GPU 0.
    pub fn build_ffn_remote_inst_gpu0(&self, call: &FfnCall) -> (r: FfnRemote)
        ensures
            r == remote_inst(self.gpu0, *call),
    {
        remote_inst_exec(&self.gpu0, call)
    }
}

// ---- laws ----

/// A GPU's experts lie slot by slot: slot 0 at the start of its buffers, each slot right
/// behind the previous one. An expert that lives elsewhere has no address here.
pub proof fn law_slots_adjacent(layer: &PlacedExperts, gpu: int, a: int, b: int)
    requires
        table_ok(layer, gpu),
        0 <= a < layer.dist.num_experts,
        0 <= b < layer.dist.num_experts,
    ensures
        ({
            let (x, y) = (entry_of(layer, gpu, a), entry_of(layer, gpu, b));
            let base = layer.bases@[gpu];
            &&& slot_on(layer, gpu, a) == Some(0usize) ==> x.gate_up_ptr == base.gate_up
                && x.down_ptr == base.down
            &&& slot_on(layer, gpu, a) is Some ==> x.global_expert_id == a
            &&& slot_on(layer, gpu, a) is None ==> x.gate_up_ptr == 0 && x.down_ptr == 0
            &&& (slot_on(layer, gpu, a) is Some && slot_on(layer, gpu, b) is Some && slot_on(
                layer,
                gpu,
                b,
            )->0 == slot_on(layer, gpu, a)->0 + 1) ==> {
                &&& y.gate_up_ptr == x.gate_up_ptr + layer.dist.gate_up_expert_stride
                &&& y.down_ptr == x.down_ptr + layer.dist.down_expert_stride
            }
        }),
{
    let (gu, dn) = (
        layer.dist.gate_up_expert_stride as int,
        layer.dist.down_expert_stride as int,
    );
    assert(0 * gu == 0 && 0 * dn == 0);
    if slot_on(layer, gpu, a) is Some {
        let s = slot_on(layer, gpu, a)->0 as int;
        assert((s + 1) * gu == s * gu + gu) by (nonlinear_arith);
        assert((s + 1) * dn == s * dn + dn) by (nonlinear_arith);
        arith::lemma_mul_mono(0, s, gu);
        arith::lemma_mul_mono(0, s, dn);
    }
    if slot_on(layer, gpu, b) is Some {
        let s = slot_on(layer, gpu, b)->0 as int;
        arith::lemma_mul_mono(0, s, gu);
        arith::lemma_mul_mono(0, s, dn);
    }
}

/// Layers with experts point to tables of their own, in order; the others to none.
pub proof fn law_tables_in_order(
    layers: Seq<Option<PlacedExperts>>,
    tables: Seq<u64>,
    a: int,
    b: int,
)
    requires
        0 <= a < b,
        has_experts(layers, a),
        has_experts(layers, b),
    ensures
        ({
            let (i, j) = (expert_layers(layers, a) as int, expert_layers(layers, b) as int);
            &&& pointer_of(layers, tables, a) == tables[i]
            &&& pointer_of(layers, tables, b) == tables[j]
            &&& i < j
            &&& j < expert_layers(layers, b + 1)
        }),
        (forall|l: int| 0 <= l < a ==> !#[trigger] has_experts(layers, l)) ==> pointer_of(
            layers,
            tables,
            a,
        ) == tables[0],
        (forall|l: int| a < l < b ==> !#[trigger] has_experts(layers, l)) ==> expert_layers(
            layers,
            b,
        ) == expert_layers(layers, a) + 1,
{
    lemma_expert_layers_mono(layers, a + 1, b);
    if forall|l: int| 0 <= l < a ==> !#[trigger] has_experts(layers, l) {
        lemma_no_expert_layers(layers, 0, a);
    }
    if forall|l: int| a < l < b ==> !#[trigger] has_experts(layers, l) {
        lemma_no_expert_layers(layers, a + 1, b);
    }
}

proof fn lemma_no_expert_layers(layers: Seq<Option<PlacedExperts>>, a: int, b: int)
    requires
        0 <= a <= b,
        forall|l: int| a <= l < b ==> !#[trigger] has_experts(layers, l),
    ensures
        expert_layers(layers, a) == expert_layers(layers, b),
    decreases b,
{
    if a < b {
        lemma_no_expert_layers(layers, a, b - 1);
        assert(!has_experts(layers, b - 1));
    }
}

/// Every token of a batch has room in each buffer that holds something of it.
pub proof fn law_batch_fits_buffers(
    num_workers: nat,
    hidden: usize,
    in_dim: usize,
    inter: usize,
    num_layers: usize,
    token: int,
)
    requires
        buffers_fit(num_workers, hidden as nat, in_dim as nat, inter as nat),
        0 <= token < MAX_PREFILL_BATCH,
    ensures
        ({
            let b = buffers_of(num_workers, hidden, in_dim, inter, num_layers);
            &&& b.num_gpus == num_workers + 1
            &&& token * in_dim + in_dim <= b.activation_staging
            &&& b.activation_staging_vram == b.activation_staging
            &&& b.work_queue == MOE_WORK_QUEUE_FIXED + b.activation_staging * 4
            &&& token * hidden + hidden <= b.moe_act_uc_handoff
            &&& token * MAX_ACTIVE_EXPERTS + MAX_ACTIVE_EXPERTS <= b.per_token_expert_ids
            &&& b.per_token_expert_weights == b.per_token_expert_ids
            &&& token * GATE_SCRATCH_STRIDE + GATE_SCRATCH_STRIDE <= b.shared_expert_gate_scratch
            &&& b.layer_config_ptrs == num_layers
            &&& b.gpu0_zero_buffer == hidden
            &&& b.scratch.local_activation == in_dim
            &&& b.scratch.scratch_up == inter
            &&& b.scratch.scratch_act == inter
            &&& b.scratch.local_output == hidden
        }),
{
    arith::lemma_scaled_index(token, MAX_PREFILL_BATCH as int, in_dim as int);
    arith::lemma_scaled_index(token, MAX_PREFILL_BATCH as int, hidden as int);
    let batch = MAX_PREFILL_BATCH as int;
    assert(0 <= batch * in_dim) by (nonlinear_arith)
        requires
            batch >= 0,
    ;
    assert(0 <= batch * hidden) by (nonlinear_arith)
        requires
            batch >= 0,
    ;
}

/// Elements of a buffer.
pub open spec fn len_of(b: P2pBuffers, which: P2pBuffer) -> usize {
    match which {
        P2pBuffer::ZeroBuffer => b.gpu0_zero_buffer,
        P2pBuffer::ActivationStagingVram => b.activation_staging_vram,
        P2pBuffer::ScratchGate => b.scratch.scratch_gate,
        P2pBuffer::ScratchUp => b.scratch.scratch_up,
        P2pBuffer::ScratchAct => b.scratch.scratch_act,
        P2pBuffer::LocalOutput => b.scratch.local_output,
        P2pBuffer::SharedExpertGateScratch => b.shared_expert_gate_scratch,
        P2pBuffer::OutputSlots => b.output_slots,
        P2pBuffer::MoeActUcHandoff => b.moe_act_uc_handoff,
        P2pBuffer::ActivationStaging => b.activation_staging,
        P2pBuffer::PerTokenExpertIds => b.per_token_expert_ids,
        P2pBuffer::PerTokenExpertWeights => b.per_token_expert_weights,
    }
}

/// Every shared buffer is cleared, each once and as a whole.
pub proof fn law_all_cleared_once(b: P2pBuffers, which: P2pBuffer)
    ensures
        ({
            let fills = zero_fills(b);
            &&& exists|i: int|
                0 <= i < fills.len() && (#[trigger] fills[i]).buffer == which && fills[i].len
                    == len_of(b, which)
            &&& forall|i: int, j: int|
                0 <= i < j < fills.len() ==> (#[trigger] fills[i]).buffer != (
                #[trigger] fills[j]).buffer
        }),
{
    let fills = zero_fills(b);
    let i: int = match which {
        P2pBuffer::ZeroBuffer => 0,
        P2pBuffer::ActivationStagingVram => 1,
        P2pBuffer::ScratchGate => 2,
        P2pBuffer::ScratchUp => 3,
        P2pBuffer::ScratchAct => 4,
        P2pBuffer::LocalOutput => 5,
        P2pBuffer::SharedExpertGateScratch => 6,
        P2pBuffer::OutputSlots => 7,
        P2pBuffer::MoeActUcHandoff => 8,
        P2pBuffer::ActivationStaging => 9,
        P2pBuffer::PerTokenExpertIds => 10,
        P2pBuffer::PerTokenExpertWeights => 11,
    };
    assert(fills[i].buffer == which);
}

/// A pass works in the GPU's own scratch and with its own tables; whatever else it does is
/// as the call says, on every GPU alike.
pub proof fn law_pass_on_own_buffers(own: MoeWorkerGpu, other: MoeWorkerGpu, call: FfnCall)
    ensures
        ({
            let r = remote_inst(own, call);
            let q = remote_inst(other, call);
            &&& r.config_array == own.layer_config_ptrs
            &&& r.local_activation == own.local_activation
            &&& r.local_output == own.local_output
            &&& r.scratch_gate == own.scratch_gate
            &&& r.scratch_up == own.scratch_up
            &&& r.scratch_act == own.scratch_act
            &&& r.layer == call.layer
            &&& (r.activation, r.output) == (call.activation, call.output)
            &&& (r.expert_ids, r.expert_weights) == (call.expert_ids, call.expert_weights)
            &&& (r.wait_ptr, r.wait_seq) == (call.wait_ptr, call.wait_seq)
            &&& (r.has_gate_proj, r.relu_sq) == (call.has_gate_proj, call.relu_sq)
            &&& call.k <= u32::MAX ==> r.k == call.k
            &&& call.hidden_size <= u32::MAX ==> r.hidden_size == call.hidden_size
            &&& call.gate_up_in_dim <= u32::MAX ==> r.gate_up_in_dim == call.gate_up_in_dim
            &&& call.expert_intermediate_size <= u32::MAX ==> r.expert_intermediate_size
                == call.expert_intermediate_size
            &&& q == (FfnRemote {
                config_array: q.config_array,
                local_activation: q.local_activation,
                local_output: q.local_output,
                scratch_gate: q.scratch_gate,
                scratch_up: q.scratch_up,
                scratch_act: q.scratch_act,
                ..r
            })
        }),
{
}

} // verus!
