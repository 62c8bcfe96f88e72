//! The vocabulary of device work: buffers, weights, kernel launches and mailbox
//! instructions. Plans are sequences of these; carrying them out is left to the
//! code that owns the device.

use vstd::prelude::*;
use crate::arith;
use crate::arith::div_ceil;

verus! {

/// Bit pattern of `1.0f32`.
pub const ONE_F32: u32 = 0x3f80_0000;

/// Threads of one block of an element-wise kernel.
pub const BLOCK: usize = 256;

/// Tokens per KV chunk.
pub const CHUNK_TOKENS: usize = 64;

/// A device buffer.
#[derive(Clone, Copy, Debug, PartialEq, Eq, Structural)]
pub enum Buf {
    Hidden,
    Normed,
    Residual,
    OutProj,
    Logits,
    FfnGate,
    FfnUp,
    FfnAct,
    FfnDown,
    QGateAttn,
    QAttn,
    KAttn,
    VAttn,
    GateAttn,
    AttnOut,
    GatedOut,
    Qkv,
    AProj,
    BProj,
    ZProj,
    QGdn,
    KGdn,
    VGdn,
    GateGdn,
    RecurrentOut,
    NormedGated,
    /// Convolution state of a recurrent layer, counted among recurrent layers.
    ConvState { gdn: usize },
    /// Recurrent state of a recurrent layer, counted among recurrent layers.
    RecurrentState { gdn: usize },
    MoeScores,
    MoeExpertIds,
    MoeExpertWeights,
    MoeLatent,
    MoeExpertGate,
    MoeExpertUp,
    MoeExpertAct,
    MoeExpertOut,
    PrefillHidden,
    PrefillMoeNormed,
    PrefillMoeResidual,
    PrefillMoeFfnOut,
    PrefillMoeIds,
    PrefillMoeWeights,
    PrefillMoeTokenIndices,
    PrefillMoeTokenWeights,
    PrefillMoeExpertInput,
    PrefillMoeGateOut,
    PrefillMoeUpOut,
    PrefillMoeActOut,
    PrefillMoeDownOut,
    /// Host-mapped activations that worker GPUs read.
    ActivationStaging,
    PerTokenExpertIds,
    PerTokenExpertWeights,
    /// All zeros.
    ZeroBuffer,
    /// Per token and GPU, the partial expert sums.
    OutputSlots,
    /// Host-mapped copy of the normed activations that workers read.
    NormedStage,
    /// Current KV chunk of a GPU, addressed in bytes from its slot's start.
    KvChunk { gpu: usize },
    /// Per-GPU attention scratch of worker GPUs.
    WorkerNormed { gpu: usize },
    WorkerQGate { gpu: usize },
    WorkerQ { gpu: usize },
    WorkerK { gpu: usize },
    WorkerV { gpu: usize },
    WorkerGate { gpu: usize },
    WorkerAttnOut { gpu: usize },
}

/// A place in a buffer, in elements from its start.
#[derive(Clone, Copy, Debug, PartialEq, Eq, Structural)]
pub struct Loc {
    pub buf: Buf,
    pub offset: usize,
}

/// The start of a buffer.
pub open spec fn start(buf: Buf) -> Loc {
    Loc { buf, offset: 0 }
}

/// The start of a buffer.
pub fn at(buf: Buf) -> (r: Loc)
    ensures
        r == start(buf),
{
    Loc { buf, offset: 0 }
}

/// A weight tensor of the model.
#[derive(Clone, Copy, Debug, PartialEq, Eq, Structural)]
pub enum Weight {
    Embed,
    FinalNorm,
    LmHead,
    InputNorm { layer: usize },
    PostNorm { layer: usize },
    QGate { layer: usize },
    K { layer: usize },
    V { layer: usize },
    O { layer: usize },
    QNorm { layer: usize },
    KNorm { layer: usize },
    /// Slices of the attention projections on a worker GPU, counted among
    /// attention layers.
    WorkerQGate { gpu: usize, attn: usize },
    WorkerK { gpu: usize, attn: usize },
    WorkerV { gpu: usize, attn: usize },
    GdnQkv { layer: usize },
    GdnA { layer: usize },
    GdnB { layer: usize },
    GdnZ { layer: usize },
    GdnConvQ { layer: usize },
    GdnConvK { layer: usize },
    GdnConvV { layer: usize },
    GdnALog { layer: usize },
    GdnDtBias { layer: usize },
    GdnOutputNorm { layer: usize },
    GdnOut { layer: usize },
    FfnGate { layer: usize },
    FfnUp { layer: usize },
    FfnDown { layer: usize },
    Router { layer: usize },
    ScoreBias { layer: usize },
    Fc1Latent { layer: usize },
    Fc2Latent { layer: usize },
    ExpertGateUp { layer: usize },
    ExpertDown { layer: usize },
    /// Experts that a distributed model keeps on GPU 0.
    LocalExpertGateUp { layer: usize },
    LocalExpertDown { layer: usize },
    SharedUp { layer: usize },
    SharedGateProj { layer: usize },
    SharedDown { layer: usize },
    SharedExpertGate { layer: usize },
}

/// A place in a weight tensor, in bytes from its start.
#[derive(Clone, Copy, Debug, PartialEq, Eq, Structural)]
pub struct WLoc {
    pub weight: Weight,
    pub byte_offset: usize,
}

/// The start of a weight tensor.
pub open spec fn whole(weight: Weight) -> WLoc {
    WLoc { weight, byte_offset: 0 }
}

/// The start of a weight tensor.
pub fn all_of(weight: Weight) -> (r: WLoc)
    ensures
        r == whole(weight),
{
    WLoc { weight, byte_offset: 0 }
}

/// How packed weights are stored.
#[derive(Clone, Copy, Debug, PartialEq, Eq, Structural)]
pub enum WeightFormat {
    Bf16,
    Rnf4G128,
    PcG32Q4,
}

impl WeightFormat {
    /// Bytes of one weight row with `in_dim` columns.
    pub open spec fn row_bytes(self, in_dim: nat) -> nat {
        match self {
            WeightFormat::Bf16 => in_dim * 2,
            WeightFormat::PcG32Q4 => (arith::ceil_div(in_dim as int, 32) * 20) as nat,
            WeightFormat::Rnf4G128 => (arith::ceil_div(in_dim as int, 128) * 132) as nat,
        }
    }

    /// Bytes of one weight row with `in_dim` columns.
    pub fn row_stride(self, in_dim: usize) -> (r: usize)
        requires
            self.row_bytes(in_dim as nat) <= usize::MAX,
        ensures
            r == self.row_bytes(in_dim as nat),
    {
        match self {
            WeightFormat::Bf16 => in_dim * 2,
            WeightFormat::PcG32Q4 => div_ceil(in_dim, 32) * 20,
            WeightFormat::Rnf4G128 => div_ceil(in_dim, 128) * 132,
        }
    }

    /// Byte offset of row `row` of a matrix with `in_dim` columns.
    pub fn row_byte_offset_dim(self, row: usize, in_dim: usize) -> (r: usize)
        requires
            self.row_bytes(in_dim as nat) <= usize::MAX,
            row * self.row_bytes(in_dim as nat) <= usize::MAX,
        ensures
            r == row * self.row_bytes(in_dim as nat),
    {
        row * self.row_stride(in_dim)
    }
}

/// A slot that one GPU raises and another awaits.
#[derive(Clone, Copy, Debug, PartialEq, Eq, Structural)]
pub enum SignalSlot {
    /// Drains the staged prefill activations.
    PrefillDrain,
    /// Normed activations of an attention layer, counted among attention layers.
    NormedReady { attn: usize },
}

/// A sequence value at a signal slot.
#[derive(Clone, Copy, Debug, PartialEq, Eq, Structural)]
pub struct Signal {
    pub slot: SignalSlot,
    pub value: u64,
}

/// Norm epsilon and the first two rotary sections.
#[derive(Clone, Copy, Debug, PartialEq, Eq, Structural)]
pub struct Rotary {
    pub eps: u32,
    pub section0: usize,
    pub section1: usize,
}

/// One unit of device work. `eps` fields are `f32` bit patterns.
#[derive(Clone, Copy, Debug, PartialEq, Eq, Structural)]
pub enum Op {
    Embedding { out: Loc, token: u32, dim: usize },
    RmsNorm { out: Loc, input: Loc, weight: Weight, dim: usize, eps: u32, one_plus_w: bool },
    Copy { dst: Loc, src: Loc, len: usize },
    Zero { dst: Loc, len: usize },
    Linear { out: Loc, matrix: WLoc, input: Loc, out_dim: usize, in_dim: usize },
    /// Batched projection of `rows` inputs.
    LinearBatched {
        out: Loc,
        matrix: WLoc,
        input: Loc,
        out_dim: usize,
        in_dim: usize,
        rows: usize,
    },
    SiluMul { out: Loc, gate: Loc, up: Loc, len: usize },
    ReluSq { out: Loc, input: Loc, len: usize },
    /// `dst += scale * src`; the scale is an `f32` bit pattern.
    ScaleAdd { dst: Loc, src: Loc, scale: u32, len: usize },
    /// `dst += sigmoid(dot(weight, input)) * src`.
    DotSigmoidScaleAdd { dst: Loc, src: Loc, input: Loc, weight: Weight, len: usize },
    ResidualAdd { out: Loc, a: Loc, b: Loc, len: usize },
    /// Top-`k` routing of one token.
    MoeGate {
        scores: Loc,
        ids: Loc,
        weights: Loc,
        bias: Option<Weight>,
        num_experts: usize,
        k: usize,
        mode: u32,
        scaling: u32,
    },
    /// Collects the rows listed in the token index buffer.
    Gather { out: Loc, input: Loc, rows: usize, dim: usize },
    /// Adds weighted rows back at the listed tokens.
    ScatterAdd { out: Loc, input: Loc, rows: usize, dim: usize },
    CausalConv1d { state: Loc, input: Loc, weight: Weight, out: Loc, channels: usize, kernel: usize },
    GdnGate { layer: usize, heads: usize },
    /// The recurrent step of `heads` value heads. A key head and its state serve a
    /// `group` of them; `states` is the number of states.
    GdnRecurrent {
        gdn: usize,
        heads: usize,
        key_dim: usize,
        value_dim: usize,
        group: usize,
        states: usize,
    },
    RmsNormGated { layer: usize, heads: usize, dim: usize, eps: u32 },
    /// Per-head normalisation of Q and K.
    QkNorm { layer: usize, q_heads: usize, kv_heads: usize, head_dim: usize, eps: u32 },
    /// Multi-section rotary embedding of Q and K at the current position.
    Rope {
        q_heads: usize,
        kv_heads: usize,
        head_dim: usize,
        rope_dim: usize,
        section0: usize,
        section1: usize,
        section2: usize,
    },
    /// Splits interleaved (Q, gate) heads.
    Deinterleave { q: Loc, gate: Loc, input: Loc, heads: usize, head_dim: usize },
    /// Attention over chunks of `chunk_tokens` tokens, with a rotary embedding of
    /// `rope_dim` dimensions.
    PagedAttention {
        out: Loc,
        q: Loc,
        gpu: usize,
        q_heads: usize,
        kv_heads: usize,
        head_dim: usize,
        seq_len: usize,
        chunk_tokens: usize,
        rope_dim: usize,
        k_offset: usize,
        v_offset: usize,
        k_norm: Option<Weight>,
        /// Norm epsilon and rotary sections, where the instruction carries them.
        rotary: Option<Rotary>,
        q_head_start: usize,
        local_q_heads: usize,
    },
    OutputGate { out: Loc, attn: Loc, gate: Loc, len: usize },
    /// Writes the current position to the position buffer.
    SetPosition { position: u32 },
    /// Waits for everything issued so far.
    Sync,
    Nop,
}

/// An `Op` addressed to a worker mailbox.
#[derive(Clone, Copy, Debug, PartialEq, Eq, Structural)]
pub struct Inst {
    /// Blocks to launch; `None` where the instruction fixes its own.
    pub grid: Option<usize>,
    pub op: Op,
    /// Raised once the work is visible to other GPUs.
    pub signal: Option<Signal>,
    /// Awaited before the work starts.
    pub wait: Option<Signal>,
}

/// Blocks an element-wise kernel over `len` elements needs.
pub open spec fn blocks(len: nat) -> nat {
    arith::ceil_div(len as int, BLOCK as int) as nat
}

/// Blocks an element-wise kernel over `len` elements needs.
pub fn blocks_for(len: usize) -> (r: usize)
    ensures
        r == blocks(len as nat),
{
    proof {
        arith::lemma_ceil_div(len as int, BLOCK as int);
    }
    div_ceil(len, BLOCK)
}

/// An instruction without signal or wait.
pub open spec fn plain(grid: nat, op: Op) -> Inst {
    Inst { grid: Some(grid as usize), op, signal: None, wait: None }
}

/// An instruction without signal or wait.
pub fn inst(grid: usize, op: Op) -> (r: Inst)
    ensures
        r == plain(grid as nat, op),
{
    Inst { grid: Some(grid), op, signal: None, wait: None }
}

/// An instruction that fixes its own grid.
pub open spec fn own_grid(op: Op) -> Inst {
    Inst { grid: None, op, signal: None, wait: None }
}

/// An instruction that fixes its own grid.
pub fn inst_own_grid(op: Op) -> (r: Inst)
    ensures
        r == own_grid(op),
{
    Inst { grid: None, op, signal: None, wait: None }
}

/// An element-wise copy, one block per 256 elements.
pub open spec fn copy_inst(dst: Loc, src: Loc, len: nat) -> Inst {
    plain(blocks(len), Op::Copy { dst, src, len: len as usize })
}

/// An element-wise copy, one block per 256 elements.
pub fn copy_of(dst: Loc, src: Loc, len: usize) -> (r: Inst)
    ensures
        r == copy_inst(dst, src, len as nat),
{
    inst(blocks_for(len), Op::Copy { dst, src, len })
}

/// A projection, one block per output row.
pub open spec fn linear_inst(out: Loc, weight: WLoc, input: Loc, out_dim: nat, in_dim: nat) -> Inst {
    plain(
        out_dim,
        Op::Linear { out, matrix: weight, input, out_dim: out_dim as usize, in_dim: in_dim as usize },
    )
}

/// A projection, one block per output row.
pub fn linear_of(out: Loc, weight: WLoc, input: Loc, out_dim: usize, in_dim: usize) -> (r: Inst)
    ensures
        r == linear_inst(out, weight, input, out_dim as nat, in_dim as nat),
{
    inst(out_dim, Op::Linear { out, matrix: weight, input, out_dim, in_dim })
}

/// A weighted accumulation, one block per 256 elements.
pub open spec fn scale_add_inst(dst: Loc, src: Loc, scale: u32, len: nat) -> Inst {
    plain(blocks(len), Op::ScaleAdd { dst, src, scale, len: len as usize })
}

/// A weighted accumulation, one block per 256 elements.
pub fn scale_add_of(dst: Loc, src: Loc, scale: u32, len: usize) -> (r: Inst)
    ensures
        r == scale_add_inst(dst, src, scale, len as nat),
{
    inst(blocks_for(len), Op::ScaleAdd { dst, src, scale, len })
}

/// There are threads for every element, and no block is idle.
pub proof fn law_blocks_cover(len: nat)
    ensures
        len <= blocks(len) * BLOCK,
        blocks(len) * BLOCK < len + BLOCK,
{
    arith::lemma_ceil_div(len as int, BLOCK as int);
}

/// A row takes whole groups of columns: two bytes per column unpacked, 20 bytes per 32
/// columns or 132 bytes per 128 columns packed. A column begun counts as a group begun.
pub proof fn law_row_bytes(n: nat, k: nat)
    requires
        0 < k,
    ensures
        WeightFormat::Bf16.row_bytes(n) == 2 * n,
        k <= 32 ==> WeightFormat::PcG32Q4.row_bytes(n * 32 + k) == n * 20 + 20,
        k <= 128 ==> WeightFormat::Rnf4G128.row_bytes(n * 128 + k) == n * 132 + 132,
        WeightFormat::PcG32Q4.row_bytes(0) == 0,
        WeightFormat::Rnf4G128.row_bytes(0) == 0,
{
}

} // verus!
