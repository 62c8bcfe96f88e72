//! Spreading experts over GPUs, round robin.

use vstd::prelude::*;
use vstd::string::*;
use crate::arith;
use crate::error::{Fault, ModelError};
use crate::moe_weights::names;
use crate::moe_weights::names::{ExpertPart, ExpertScheme, MoeName};
use crate::ops::WeightFormat;
use crate::tensors::PackedIndex;
use crate::text;
use crate::text::{decimal_text, joined};

verus! {

/// The GPU of expert `e` when `start..num` receive experts.
pub open spec fn home(e: int, start: int, num: int) -> int {
    start + e % (num - start)
}

/// How many of the first `n` experts live on `gpu`.
pub open spec fn hosted(n: int, gpu: int, start: int, num: int) -> nat
    decreases n,
{
    if n <= 0 {
        0
    } else {
        hosted(n - 1, gpu, start, num) + if home(n - 1, start, num) == gpu {
            1nat
        } else {
            0nat
        }
    }
}

/// The place of expert `e` among the experts of its GPU.
pub open spec fn slot(e: int, start: int, num: int) -> nat {
    hosted(e, home(e, start, num), start, num)
}

/// Placement of the experts: one entry per expert on every GPU.
pub open spec fn slot_map_of(ne: nat, gpu: int, start: int, num: int) -> Seq<Option<usize>> {
    Seq::new(
        ne,
        |e: int|
            if home(e, start, num) == gpu {
                Some(slot(e, start, num) as usize)
            } else {
                None
            },
    )
}

// ---- laws of the placement ----

/// Each GPU's share has a closed form: the quotient, and one more on the first
/// GPUs while the remainder lasts.
pub proof fn law_share(n: int, gpu: int, start: int, num: int)
    requires
        n >= 0,
        0 <= start <= gpu < num,
    ensures
        hosted(n, gpu, start, num) == n / (num - start) + if gpu - start < n % (num - start) {
            1int
        } else {
            0int
        },
    decreases n,
{
    let w = num - start;
    if n == 0 {
        vstd::arithmetic::div_mod::lemma_fundamental_div_mod_converse(0, w, 0, 0);
    } else {
        law_share(n - 1, gpu, start, num);
        let q = (n - 1) / w;
        let r = (n - 1) % w;
        vstd::arithmetic::div_mod::lemma_fundamental_div_mod(n - 1, w);
        vstd::arithmetic::div_mod::lemma_mod_bound(n - 1, w);
        if r + 1 < w {
            vstd::arithmetic::div_mod::lemma_fundamental_div_mod_converse(n, w, q, r + 1);
        } else {
            assert(w * q + w == (q + 1) * w) by (nonlinear_arith);
            vstd::arithmetic::div_mod::lemma_fundamental_div_mod_converse(n, w, q + 1, 0);
        }
    }
}

/// Every expert has exactly one home among the receiving GPUs, and its slot there
/// is the number of rounds dealt before it.
pub proof fn law_home_and_slot(e: int, start: int, num: int)
    requires
        e >= 0,
        0 <= start < num,
    ensures
        start <= home(e, start, num) < num,
        slot(e, start, num) == e / (num - start),
{
    let w = num - start;
    vstd::arithmetic::div_mod::lemma_mod_bound(e, w);
    law_share(e, home(e, start, num), start, num);
}

/// Two experts never share a slot of a GPU.
pub proof fn law_slots_distinct(a: int, b: int, start: int, num: int)
    requires
        a >= 0,
        b >= 0,
        a != b,
        0 <= start < num,
    ensures
        home(a, start, num) != home(b, start, num) || slot(a, start, num) != slot(b, start, num),
{
    law_home_and_slot(a, start, num);
    law_home_and_slot(b, start, num);
    vstd::arithmetic::div_mod::lemma_fundamental_div_mod(a, num - start);
    vstd::arithmetic::div_mod::lemma_fundamental_div_mod(b, num - start);
}

/// An expert's slot lies below its GPU's expert count.
pub proof fn law_slot_below_count(e: int, ne: int, start: int, num: int)
    requires
        0 <= e < ne,
    ensures
        slot(e, start, num) < hosted(ne, home(e, start, num), start, num),
    decreases ne - e,
{
    if ne > e + 1 {
        law_slot_below_count(e, ne - 1, start, num);
    }
}

/// No two receiving GPUs differ by more than one expert.
pub proof fn law_balanced(ne: int, a: int, b: int, start: int, num: int)
    requires
        ne >= 0,
        0 <= start <= a < num,
        start <= b < num,
    ensures
        hosted(ne, a, start, num) <= hosted(ne, b, start, num) + 1,
{
    law_share(ne, a, start, num);
    law_share(ne, b, start, num);
}

/// Experts on the GPUs before `gpu`.
pub open spec fn hosted_before(ne: int, gpu: int, start: int, num: int) -> nat
    decreases gpu,
{
    if gpu <= 0 {
        0
    } else {
        hosted_before(ne, gpu - 1, start, num) + hosted(ne, gpu - 1, start, num)
    }
}

/// All experts are placed: the counts of all GPUs add up to the number of experts.
pub proof fn law_all_placed(ne: int, start: int, num: int)
    requires
        ne >= 0,
        0 <= start < num,
    ensures
        hosted_before(ne, num, start, num) == ne,
    decreases ne,
{
    if ne == 0 {
        lemma_none_before(num, start, num);
    } else {
        law_all_placed(ne - 1, start, num);
        law_home_and_slot(ne - 1, start, num);
        lemma_one_more_before(ne, num, start, num);
    }
}

proof fn lemma_none_before(gpu: int, start: int, num: int)
    ensures
        hosted_before(0, gpu, start, num) == 0,
    decreases gpu,
{
    if gpu > 0 {
        lemma_none_before(gpu - 1, start, num);
    }
}

proof fn lemma_one_more_before(ne: int, gpu: int, start: int, num: int)
    requires
        ne > 0,
        0 <= home(ne - 1, start, num),
    ensures
        hosted_before(ne, gpu, start, num) == hosted_before(ne - 1, gpu, start, num) + if home(
            ne - 1,
            start,
            num,
        ) < gpu {
            1nat
        } else {
            0nat
        },
    decreases gpu,
{
    if gpu > 0 {
        lemma_one_more_before(ne, gpu - 1, start, num);
    }
}

proof fn lemma_hosted_bound(n: int, gpu: int, start: int, num: int)
    requires
        n >= 0,
    ensures
        hosted(n, gpu, start, num) <= n,
    decreases n,
{
    if n > 0 {
        lemma_hosted_bound(n - 1, gpu, start, num);
    }
}

// ---- placement ----

/// One GPU's share.
pub struct GpuExperts {
    pub gpu: usize,
    pub gate_up_bytes: usize,
    pub down_bytes: usize,
    pub local_expert_count: usize,
    /// For each expert, its slot here if it lives here.
    pub slot_map: Vec<Option<usize>>,
}

/// The error for a first GPU beyond the last.
pub open spec fn bad_start(start: nat, num: nat) -> Seq<char> {
    "start_gpu "@ + text::decimal(start) + " must be less than num_devices "@ + text::decimal(num)
}

fn bad_start_error(start: usize, num: usize) -> (r: ModelError)
    ensures
        r.is_invalid(bad_start(start as nat, num as nat)),
{
    let mut t: String = joined("start_gpu ", decimal_text(start).as_str());
    t.append(" must be less than num_devices ");
    t.append(decimal_text(num).as_str());
    ModelError::InvalidConfig(t)
}

fn expert_devices(ne: usize, start: usize, num: usize) -> (r: Vec<usize>)
    requires
        start < num,
    ensures
        r@ == Seq::new(ne as nat, |e: int| home(e, start as int, num as int) as usize),
{
    let workers: usize = num - start;
    let mut r: Vec<usize> = Vec::new();
    let mut e: usize = 0;
    while e < ne
        invariant
            e <= ne,
            start < num,
            workers == num - start,
            r@.len() == e,
            forall|k: int| 0 <= k < e ==> r@[k] == home(k, start as int, num as int) as usize,
        decreases ne - e,
    {
        r.push(start + e % workers);
        e += 1;
    }
    assert(r@ =~= Seq::new(ne as nat, |k: int| home(k, start as int, num as int) as usize));
    r
}

/// Slots and count of one GPU.
fn gpu_slots(ne: usize, gpu: usize, start: usize, num: usize) -> (r: (Vec<Option<usize>>, usize))
    requires
        start < num,
    ensures
        r.0@ == slot_map_of(ne as nat, gpu as int, start as int, num as int),
        r.1 == hosted(ne as int, gpu as int, start as int, num as int),
        r.1 <= ne,
{
    let workers: usize = num - start;
    let mut map: Vec<Option<usize>> = Vec::new();
    let mut count: usize = 0;
    let mut e: usize = 0;
    while e < ne
        invariant
            e <= ne,
            start < num,
            workers == num - start,
            map@.len() == e,
            count == hosted(e as int, gpu as int, start as int, num as int),
            count <= e,
            forall|k: int|
                0 <= k < e ==> map@[k] == slot_map_of(
                    ne as nat,
                    gpu as int,
                    start as int,
                    num as int,
                )[k],
        decreases ne - e,
    {
        if start + e % workers == gpu {
            map.push(Some(count));
            count += 1;
        } else {
            map.push(None);
        }
        e += 1;
    }
    assert(map@ =~= slot_map_of(ne as nat, gpu as int, start as int, num as int));
    (map, count)
}

/// Bytes moved from one place to another.
#[derive(Clone, Copy, Debug, PartialEq, Eq, Structural)]
pub struct ByteMove {
    pub src: usize,
    pub dst: usize,
    pub bytes: usize,
}

/// An expert's matrices on their way from the first GPU to its home.
#[derive(Clone, Copy, Debug, PartialEq, Eq, Structural)]
pub struct ExpertMove {
    pub expert: usize,
    pub gpu: usize,
    pub gate_up: ByteMove,
    pub down: ByteMove,
}

/// The loaded experts of a layer, all on one GPU.
#[derive(Clone, Copy, Debug, PartialEq, Eq, Structural)]
pub struct LoadedExperts {
    pub num_experts: usize,
    pub inter: usize,
    pub has_gate_proj: bool,
    pub gate_up_format: WeightFormat,
    /// Input width recorded with the matrices, where one is.
    pub gate_up_in_dim: Option<usize>,
    pub down_format: WeightFormat,
}

impl LoadedExperts {
    pub open spec fn in_dim(self, hidden: usize) -> usize {
        match self.gate_up_in_dim {
            Some(d) => d,
            None => hidden,
        }
    }

    /// Rows of an expert's gate and up matrices together.
    pub open spec fn gate_up_rows(self) -> nat {
        if self.has_gate_proj {
            2 * self.inter as nat
        } else {
            self.inter as nat
        }
    }

    pub open spec fn gate_up_stride(self, hidden: usize) -> nat {
        self.gate_up_rows() * self.gate_up_format.row_bytes(self.in_dim(hidden) as nat)
    }

    pub open spec fn down_stride(self, hidden: usize) -> nat {
        self.in_dim(hidden) as nat * self.down_format.row_bytes(self.inter as nat)
    }

    /// All sizes are addressable.
    pub open spec fn fits(self, hidden: usize) -> bool {
        &&& self.gate_up_rows() <= usize::MAX
        &&& self.gate_up_format.row_bytes(self.in_dim(hidden) as nat) <= usize::MAX
        &&& self.down_format.row_bytes(self.inter as nat) <= usize::MAX
        &&& self.gate_up_stride(hidden) <= usize::MAX
        &&& self.down_stride(hidden) <= usize::MAX
        &&& self.num_experts as nat * self.gate_up_stride(hidden) <= usize::MAX
        &&& self.num_experts as nat * self.down_stride(hidden) <= usize::MAX
    }
}

/// The share of GPU `gpu`. The first GPU keeps its experts where they were loaded,
/// so its slots are the experts' own numbers and it needs no new buffer.
pub open spec fn is_ref_share(
    g: &GpuExperts,
    gpu: int,
    ne: nat,
    gu: nat,
    down: nat,
    start: int,
    num: int,
) -> bool {
    let n = hosted(ne as int, gpu, start, num);
    &&& g.gpu == gpu
    &&& g.local_expert_count == n
    &&& g.gate_up_bytes == if gpu == 0 {
        0
    } else {
        n * gu
    }
    &&& g.down_bytes == if gpu == 0 {
        0
    } else {
        n * down
    }
    &&& g.slot_map@ == if gpu == 0 {
        Seq::new(
            ne,
            |e: int|
                if home(e, start, num) == 0 {
                    Some(e as usize)
                } else {
                    None::<usize>
                },
        )
    } else {
        slot_map_of(ne, gpu, start, num)
    }
}

/// Moves of the first `n` experts that leave the first GPU.
pub open spec fn ref_moves(n: int, gu: nat, down: nat, start: int, num: int) -> Seq<ExpertMove>
    decreases n,
{
    if n <= 0 {
        Seq::empty()
    } else {
        let e = n - 1;
        let rest = ref_moves(e, gu, down, start, num);
        if home(e, start, num) == 0 {
            rest
        } else {
            rest.push(
                ExpertMove {
                    expert: e as usize,
                    gpu: home(e, start, num) as usize,
                    gate_up: ByteMove {
                        src: (e * gu) as usize,
                        dst: (slot(e, start, num) * gu) as usize,
                        bytes: gu as usize,
                    },
                    down: ByteMove {
                        src: (e * down) as usize,
                        dst: (slot(e, start, num) * down) as usize,
                        bytes: down as usize,
                    },
                },
            )
        }
    }
}

/// How the experts of a layer are spread.
pub struct DistributedMoeWeights {
    pub gpus: Vec<GpuExperts>,
    pub expert_device: Vec<usize>,
    pub has_gate_proj: bool,
    pub num_experts: usize,
    pub inter: usize,
    pub gate_up_in_dim: usize,
    pub gate_up_expert_stride: usize,
    pub down_expert_stride: usize,
    pub gate_up_row_stride: usize,
    pub weight_format: WeightFormat,
}

/// How loaded experts are spread over the GPUs `start..num`, and what moves.
pub open spec fn is_ref_distribution(
    d: &DistributedMoeWeights,
    moves: Seq<ExpertMove>,
    moe: LoadedExperts,
    hidden: usize,
    start: int,
    num: int,
) -> bool {
    let (gu, down) = (moe.gate_up_stride(hidden), moe.down_stride(hidden));
    let ne = moe.num_experts as nat;
    &&& d.expert_device@ == Seq::new(ne, |e: int| home(e, start, num) as usize)
    &&& d.gpus@.len() == num
    &&& forall|g: int|
        0 <= g < num ==> is_ref_share(#[trigger] &d.gpus@[g], g, ne, gu, down, start, num)
    &&& moves == ref_moves(ne as int, gu, down, start, num)
    &&& d.has_gate_proj == moe.has_gate_proj
    &&& d.num_experts == ne
    &&& d.inter == moe.inter
    &&& d.gate_up_in_dim == moe.in_dim(hidden)
    &&& d.gate_up_expert_stride == gu
    &&& d.down_expert_stride == down
    &&& d.gate_up_row_stride == moe.gate_up_format.row_bytes(moe.in_dim(hidden) as nat)
    &&& d.weight_format == moe.gate_up_format
}

/// Plans spreading loaded experts over the GPUs `start_gpu..num_devices`.
pub fn distribute_moe_weights_from_ref(
    moe: &LoadedExperts,
    num_devices: usize,
    hidden: usize,
    start_gpu: usize,
) -> (r: Result<(DistributedMoeWeights, Vec<ExpertMove>), ModelError>)
    requires
        moe.fits(hidden),
    ensures
        r is Err <==> start_gpu >= num_devices,
        r matches Err(e) ==> e.is_invalid(bad_start(start_gpu as nat, num_devices as nat)),
        r matches Ok((d, moves)) ==> is_ref_distribution(
            &d,
            moves@,
            *moe,
            hidden,
            start_gpu as int,
            num_devices as int,
        ),
{
    if start_gpu >= num_devices {
        return Err(bad_start_error(start_gpu, num_devices));
    }
    let ne: usize = moe.num_experts;
    let in_dim: usize = match moe.gate_up_in_dim {
        Some(d) => d,
        None => hidden,
    };
    let rows: usize = if moe.has_gate_proj {
        2 * moe.inter
    } else {
        moe.inter
    };
    let gu: usize = moe.gate_up_format.row_byte_offset_dim(rows, in_dim);
    let down: usize = moe.down_format.row_byte_offset_dim(in_dim, moe.inter);
    let row: usize = moe.gate_up_format.row_stride(in_dim);
    let expert_device = expert_devices(ne, start_gpu, num_devices);
    let mut gpus: Vec<GpuExperts> = Vec::new();
    let mut g: usize = 0;
    while g < num_devices
        invariant
            g <= num_devices,
            start_gpu < num_devices,
            ne == moe.num_experts,
            gu == moe.gate_up_stride(hidden),
            down == moe.down_stride(hidden),
            ne as nat * gu as nat <= usize::MAX,
            ne as nat * down as nat <= usize::MAX,
            expert_device@ == Seq::new(
                ne as nat,
                |e: int| home(e, start_gpu as int, num_devices as int) as usize,
            ),
            gpus@.len() == g,
            forall|k: int|
                0 <= k < g ==> is_ref_share(
                    #[trigger] &gpus@[k],
                    k,
                    ne as nat,
                    gu as nat,
                    down as nat,
                    start_gpu as int,
                    num_devices as int,
                ),
        decreases num_devices - g,
    {
        let (slot_map, n) = gpu_slots(ne, g, start_gpu, num_devices);
        if g == 0 {
            let own = own_slots(ne, start_gpu, num_devices);
            gpus.push(
                GpuExperts {
                    gpu: 0,
                    gate_up_bytes: 0,
                    down_bytes: 0,
                    local_expert_count: n,
                    slot_map: own,
                },
            );
        } else {
            proof {
                arith::lemma_mul_mono(n as int, ne as int, gu as int);
                arith::lemma_mul_mono(n as int, ne as int, down as int);
            }
            gpus.push(
                GpuExperts {
                    gpu: g,
                    gate_up_bytes: n * gu,
                    down_bytes: n * down,
                    local_expert_count: n,
                    slot_map,
                },
            );
        }
        g += 1;
    }
    let moves = plan_ref_moves(ne, gu, down, start_gpu, num_devices);
    Ok(
        (
            DistributedMoeWeights {
                gpus,
                expert_device,
                has_gate_proj: moe.has_gate_proj,
                num_experts: ne,
                inter: moe.inter,
                gate_up_in_dim: in_dim,
                gate_up_expert_stride: gu,
                down_expert_stride: down,
                gate_up_row_stride: row,
                weight_format: moe.gate_up_format,
            },
            moves,
        ),
    )
}

/// Slots of the first GPU: the experts' own numbers.
fn own_slots(ne: usize, start: usize, num: usize) -> (r: Vec<Option<usize>>)
    requires
        start < num,
    ensures
        r@ == Seq::new(
            ne as nat,
            |e: int|
                if home(e, start as int, num as int) == 0 {
                    Some(e as usize)
                } else {
                    None::<usize>
                },
        ),
{
    let ghost want = Seq::new(
        ne as nat,
        |e: int|
            if home(e, start as int, num as int) == 0 {
                Some(e as usize)
            } else {
                None::<usize>
            },
    );
    let workers: usize = num - start;
    let mut r: Vec<Option<usize>> = Vec::new();
    let mut e: usize = 0;
    while e < ne
        invariant
            e <= ne,
            start < num,
            workers == num - start,
            want == Seq::new(
                ne as nat,
                |k: int|
                    if home(k, start as int, num as int) == 0 {
                        Some(k as usize)
                    } else {
                        None::<usize>
                    },
            ),
            r@.len() == e,
            forall|k: int| 0 <= k < e ==> r@[k] == want[k],
        decreases ne - e,
    {
        if start + e % workers == 0 {
            r.push(Some(e));
        } else {
            r.push(None);
        }
        e += 1;
    }
    assert(r@ =~= want);
    r
}

fn plan_ref_moves(ne: usize, gu: usize, down: usize, start: usize, num: usize) -> (r: Vec<ExpertMove>)
    requires
        start < num,
        ne as nat * gu as nat <= usize::MAX,
        ne as nat * down as nat <= usize::MAX,
    ensures
        r@ == ref_moves(ne as int, gu as nat, down as nat, start as int, num as int),
{
    let workers: usize = num - start;
    let mut r: Vec<ExpertMove> = Vec::new();
    let mut e: usize = 0;
    while e < ne
        invariant
            e <= ne,
            start < num,
            workers == num - start,
            ne as nat * gu as nat <= usize::MAX,
            ne as nat * down as nat <= usize::MAX,
            r@ == ref_moves(e as int, gu as nat, down as nat, start as int, num as int),
        decreases ne - e,
    {
        let gpu: usize = start + e % workers;
        let slot_here: usize = e / workers;
        proof {
            law_home_and_slot(e as int, start as int, num as int);
            arith::lemma_scaled_index(e as int, ne as int, gu as int);
            arith::lemma_scaled_index(e as int, ne as int, down as int);
            assert(slot_here <= e) by {
                vstd::arithmetic::div_mod::lemma_div_is_ordered_by_denominator(
                    e as int,
                    1,
                    workers as int,
                );
            }
            arith::lemma_mul_mono(slot_here as int, e as int, gu as int);
            arith::lemma_mul_mono(slot_here as int, e as int, down as int);
        }
        if gpu != 0 {
            r.push(
                ExpertMove {
                    expert: e,
                    gpu,
                    gate_up: ByteMove { src: e * gu, dst: slot_here * gu, bytes: gu },
                    down: ByteMove { src: e * down, dst: slot_here * down, bytes: down },
                },
            );
        }
        e += 1;
    }
    r
}

// ---- experts read straight from the archive ----

/// Which buffer a packed tensor goes to.
#[derive(Clone, Copy, Debug, PartialEq, Eq, Structural)]
pub enum ExpertBuffer {
    GateUp,
    Down,
}

/// Bytes of a packed tensor on their way to a GPU.
#[derive(Clone, Copy, Debug, PartialEq, Eq, Structural)]
pub struct PackedMove {
    pub name: MoeName,
    pub gpu: usize,
    pub into: ExpertBuffer,
    /// Offset in the tensor.
    pub src: usize,
    pub dst: usize,
    pub bytes: usize,
}

/// Prefix of a layer's expert tensors.
pub open spec fn expert_prefix(prefix: Seq<char>, layer: nat, key: Seq<char>) -> Seq<char> {
    prefix + "layers."@ + text::decimal(layer) + "."@ + key + "."@
}

/// The up, gate or down matrix of expert `e`.
pub open spec fn bare(part: ExpertPart, e: int) -> MoeName {
    names::expert(ExpertScheme::Bare, part, e)
}

/// Whether a layer's experts are found under `mixer`.
pub open spec fn under_mixer(index: &PackedIndex, prefix: Seq<char>, layer: nat) -> bool {
    let p = expert_prefix(prefix, layer, "mixer"@);
    ||| index.lookup(MoeName::BareFusedGateUp.full(p)) is Some
    ||| index.lookup(bare(ExpertPart::Up, 0).full(p)) is Some
    ||| index.lookup(bare(ExpertPart::Gate, 0).full(p)) is Some
}

/// Prefix under which a layer's experts are looked for.
pub open spec fn found_prefix(index: &PackedIndex, prefix: Seq<char>, layer: nat) -> Seq<char> {
    expert_prefix(
        prefix,
        layer,
        if under_mixer(index, prefix, layer) {
            "mixer"@
        } else {
            "mlp"@
        },
    )
}

/// One tensor holds gate and up matrices of all experts.
pub open spec fn is_fused(index: &PackedIndex, p: Seq<char>) -> bool {
    index.lookup(MoeName::BareFusedGateUp.full(p)) is Some
}

/// The tensor that tells the experts' format.
pub open spec fn format_probe(index: &PackedIndex, p: Seq<char>) -> MoeName {
    if is_fused(index, p) {
        MoeName::BareFusedGateUp
    } else if index.lookup(bare(ExpertPart::Gate, 0).full(p)) is Some {
        bare(ExpertPart::Gate, 0)
    } else {
        bare(ExpertPart::Up, 0)
    }
}

/// The tensor whose size and width describe gate and up.
pub open spec fn size_probe(index: &PackedIndex, p: Seq<char>) -> MoeName {
    if is_fused(index, p) {
        MoeName::BareFusedGateUp
    } else {
        bare(ExpertPart::Up, 0)
    }
}

/// The tensor whose size describes down.
pub open spec fn down_probe(index: &PackedIndex, p: Seq<char>) -> MoeName {
    if is_fused(index, p) {
        MoeName::BareFusedDown
    } else {
        bare(ExpertPart::Down, 0)
    }
}

/// Bytes of one expert's gate and up matrices.
pub open spec fn gate_up_bytes(index: &PackedIndex, p: Seq<char>, ne: nat, gated: bool) -> nat {
    let bytes = index.lookup(size_probe(index, p).full(p))->0.data_bytes as nat;
    if is_fused(index, p) {
        bytes / ne
    } else if gated {
        bytes * 2
    } else {
        bytes
    }
}

/// Bytes of one expert's down matrix.
pub open spec fn down_bytes(index: &PackedIndex, p: Seq<char>, ne: nat) -> nat {
    let bytes = index.lookup(down_probe(index, p).full(p))->0.data_bytes as nat;
    if is_fused(index, p) {
        bytes / ne
    } else {
        bytes
    }
}

/// The pieces of expert `e`, or the name of the tensor it lacks.
pub open spec fn expert_moves(
    index: &PackedIndex,
    p: Seq<char>,
    e: int,
    gated: bool,
    gu: nat,
    down: nat,
    start: int,
    num: int,
) -> Result<Seq<PackedMove>, Seq<char>> {
    let gpu = home(e, start, num) as usize;
    let at = slot(e, start, num) * gu;
    let down_at = (slot(e, start, num) * down) as usize;
    let (g, u, d) = (bare(ExpertPart::Gate, e), bare(ExpertPart::Up, e), bare(ExpertPart::Down, e));
    if is_fused(index, p) {
        Ok(
            seq![
                PackedMove {
                    name: MoeName::BareFusedGateUp,
                    gpu,
                    into: ExpertBuffer::GateUp,
                    src: (e * gu) as usize,
                    dst: at as usize,
                    bytes: gu as usize,
                },
                PackedMove {
                    name: MoeName::BareFusedDown,
                    gpu,
                    into: ExpertBuffer::Down,
                    src: (e * down) as usize,
                    dst: down_at,
                    bytes: down as usize,
                },
            ],
        )
    } else if gated && index.lookup(g.full(p)) is None {
        Err(g.full(p))
    } else if index.lookup(u.full(p)) is None {
        Err(u.full(p))
    } else if index.lookup(d.full(p)) is None {
        Err(d.full(p))
    } else {
        let g_bytes = index.lookup(g.full(p))->0.data_bytes;
        let u_bytes = index.lookup(u.full(p))->0.data_bytes;
        let d_bytes = index.lookup(d.full(p))->0.data_bytes;
        let gate_move = PackedMove {
            name: g,
            gpu,
            into: ExpertBuffer::GateUp,
            src: 0,
            dst: at as usize,
            bytes: g_bytes,
        };
        let up_move = PackedMove {
            name: u,
            gpu,
            into: ExpertBuffer::GateUp,
            src: 0,
            dst: (if gated {
                at + g_bytes
            } else {
                at as int
            }) as usize,
            bytes: u_bytes,
        };
        let down_move = PackedMove {
            name: d,
            gpu,
            into: ExpertBuffer::Down,
            src: 0,
            dst: down_at,
            bytes: d_bytes,
        };
        Ok(
            if gated {
                seq![gate_move, up_move, down_move]
            } else {
                seq![up_move, down_move]
            },
        )
    }
}

/// The pieces of the first `n` experts, or the first tensor that is missing.
pub open spec fn packed_moves(
    index: &PackedIndex,
    p: Seq<char>,
    n: int,
    gated: bool,
    gu: nat,
    down: nat,
    start: int,
    num: int,
) -> Result<Seq<PackedMove>, Seq<char>>
    decreases n,
{
    if n <= 0 {
        Ok(Seq::empty())
    } else {
        match packed_moves(index, p, n - 1, gated, gu, down, start, num) {
            Err(t) => Err(t),
            Ok(done) => match expert_moves(index, p, n - 1, gated, gu, down, start, num) {
                Err(t) => Err(t),
                Ok(more) => Ok(done + more),
            },
        }
    }
}

/// Experts packed one tensor each all have expert 0's sizes.
pub open spec fn uniform(index: &PackedIndex, p: Seq<char>, ne: int) -> bool {
    !is_fused(index, p) ==> forall|part: ExpertPart, e: int|
        0 <= e < ne && index.lookup((#[trigger] bare(part, e)).full(p)) is Some ==> index.lookup(
            bare(part, e).full(p),
        )->0.data_bytes == index.lookup(
            bare(
                if part == ExpertPart::Down {
                    ExpertPart::Down
                } else {
                    ExpertPart::Up
                },
                0,
            ).full(p),
        )->0.data_bytes
}

/// The first thing that goes wrong.
pub open spec fn packed_fault(
    index: &PackedIndex,
    prefix: Seq<char>,
    layer: nat,
    ne: nat,
    gated: bool,
    start: nat,
    num: nat,
) -> Option<Fault> {
    let p = found_prefix(index, prefix, layer);
    let probe = format_probe(index, p).full(p);
    let moves = packed_moves(
        index,
        p,
        ne as int,
        gated,
        gate_up_bytes(index, p, ne, gated),
        down_bytes(index, p, ne),
        start as int,
        num as int,
    );
    if start >= num {
        Some(Fault::Invalid(bad_start(start, num)))
    } else if index.lookup(probe) is None {
        Some(Fault::Missing(probe))
    } else if index.lookup(probe)->0.format is None {
        Some(
            Fault::Missing(
                probe + ": not a linear bqnt format code "@ + text::decimal(
                    index.lookup(probe)->0.code as nat,
                ),
            ),
        )
    } else if index.lookup(size_probe(index, p).full(p)) is None {
        Some(Fault::Missing(size_probe(index, p).full(p)))
    } else if index.lookup(down_probe(index, p).full(p)) is None {
        Some(Fault::Missing(down_probe(index, p).full(p)))
    } else if moves is Err {
        Some(Fault::Missing(moves->Err_0))
    } else {
        None
    }
}

/// Every expert's gate matrix can stand in any slot without leaving the address
/// space.
pub open spec fn gates_addressable(index: &PackedIndex, p: Seq<char>, ne: int, gu: nat) -> bool {
    !is_fused(index, p) ==> forall|e: int|
        0 <= e < ne && index.lookup((#[trigger] bare(ExpertPart::Gate, e)).full(p)) is Some
            ==> ne * gu + index.lookup(bare(ExpertPart::Gate, e).full(p))->0.data_bytes
            <= usize::MAX
}

/// The sizes read from the archive are usable: no division by zero, nothing beyond
/// the address space.
pub open spec fn sizes_usable(index: &PackedIndex, p: Seq<char>, ne: nat, gated: bool) -> bool {
    index.lookup(size_probe(index, p).full(p)) is Some && index.lookup(
        down_probe(index, p).full(p),
    ) is Some && index.lookup(format_probe(index, p).full(p)) is Some && index.lookup(
        format_probe(index, p).full(p),
    )->0.format is Some ==> {
        &&& is_fused(index, p) ==> ne > 0
        &&& gate_up_bytes(index, p, ne, gated) <= usize::MAX
        &&& ne * gate_up_bytes(index, p, ne, gated) <= usize::MAX
        &&& ne * down_bytes(index, p, ne) <= usize::MAX
        &&& gated ==> gates_addressable(
            index,
            p,
            ne as int,
            gate_up_bytes(index, p, ne, gated),
        )
        &&& index.lookup(format_probe(index, p).full(p))->0.format->0.row_bytes(
            index.lookup(size_probe(index, p).full(p))->0.in_features as nat,
        ) <= usize::MAX
    }
}

/// The share of GPU `gpu` when every GPU has a buffer of its own.
pub open spec fn is_packed_share(
    g: &GpuExperts,
    gpu: int,
    ne: nat,
    gu: nat,
    down: nat,
    start: int,
    num: int,
) -> bool {
    let n = hosted(ne as int, gpu, start, num);
    &&& g.gpu == gpu
    &&& g.local_expert_count == n
    &&& g.gate_up_bytes == n * gu
    &&& g.down_bytes == n * down
    &&& g.slot_map@ == slot_map_of(ne, gpu, start, num)
}

fn expert_prefix_text(prefix: &str, layer: usize, key: &str) -> (r: String)
    ensures
        r@ == expert_prefix(prefix@, layer as nat, key@),
{
    let mut r: String = joined(prefix, "layers.");
    r.append(decimal_text(layer).as_str());
    r.append(".");
    r.append(key);
    r.append(".");
    r
}

fn bare_exec(part: ExpertPart, e: usize) -> (r: MoeName)
    ensures
        r == bare(part, e as int),
{
    MoeName::Expert { scheme: ExpertScheme::Bare, part, expert: e }
}

fn found_prefix_text(index: &PackedIndex, prefix: &str, layer: usize) -> (r: String)
    ensures
        r@ == found_prefix(index, prefix@, layer as nat),
{
    let mixer = expert_prefix_text(prefix, layer, "mixer");
    let p = mixer.as_str();
    if index.entry(MoeName::BareFusedGateUp.text(p).as_str()).is_some() || index.entry(
        bare_exec(ExpertPart::Up, 0).text(p).as_str(),
    ).is_some() || index.entry(bare_exec(ExpertPart::Gate, 0).text(p).as_str()).is_some() {
        mixer
    } else {
        expert_prefix_text(prefix, layer, "mlp")
    }
}

proof fn lemma_moves_err(
    index: &PackedIndex,
    p: Seq<char>,
    n: int,
    m: int,
    gated: bool,
    gu: nat,
    down: nat,
    start: int,
    num: int,
)
    requires
        n <= m,
        packed_moves(index, p, n, gated, gu, down, start, num) is Err,
    ensures
        packed_moves(index, p, m, gated, gu, down, start, num) == packed_moves(
            index,
            p,
            n,
            gated,
            gu,
            down,
            start,
            num,
        ),
    decreases m - n,
{
    if n < m {
        lemma_moves_err(index, p, n, m - 1, gated, gu, down, start, num);
    }
}

fn plan_expert(
    index: &PackedIndex,
    p: &str,
    e: usize,
    ne: usize,
    gated: bool,
    gu: usize,
    down: usize,
    start: usize,
    num: usize,
) -> (r: Result<Vec<PackedMove>, ModelError>)
    requires
        start < num,
        e < ne,
        ne as nat * gu as nat <= usize::MAX,
        ne as nat * down as nat <= usize::MAX,
        gated ==> gates_addressable(index, p@, ne as int, gu as nat),
    ensures
        ({
            let want = expert_moves(
                index,
                p@,
                e as int,
                gated,
                gu as nat,
                down as nat,
                start as int,
                num as int,
            );
            &&& r is Err <==> want is Err
            &&& r matches Err(x) ==> x.is_missing(want->Err_0)
            &&& r matches Ok(v) ==> v@ == want->Ok_0
        }),
{
    let workers: usize = num - start;
    let gpu: usize = start + e % workers;
    let slot_here: usize = e / workers;
    proof {
        law_home_and_slot(e as int, start as int, num as int);
        arith::lemma_scaled_index(e as int, ne as int, gu as int);
        arith::lemma_scaled_index(e as int, ne as int, down as int);
        assert(slot_here <= e) by {
            vstd::arithmetic::div_mod::lemma_div_is_ordered_by_denominator(
                e as int,
                1,
                workers as int,
            );
        }
        arith::lemma_mul_mono(slot_here as int, e as int, gu as int);
        arith::lemma_mul_mono(slot_here as int, e as int, down as int);
    }
    let at: usize = slot_here * gu;
    let down_at: usize = slot_here * down;
    let mut v: Vec<PackedMove> = Vec::new();
    if index.entry(MoeName::BareFusedGateUp.text(p).as_str()).is_some() {
        v.push(
            PackedMove {
                name: MoeName::BareFusedGateUp,
                gpu,
                into: ExpertBuffer::GateUp,
                src: e * gu,
                dst: at,
                bytes: gu,
            },
        );
        v.push(
            PackedMove {
                name: MoeName::BareFusedDown,
                gpu,
                into: ExpertBuffer::Down,
                src: e * down,
                dst: down_at,
                bytes: down,
            },
        );
        assert(v@ =~= expert_moves(
            index,
            p@,
            e as int,
            gated,
            gu as nat,
            down as nat,
            start as int,
            num as int,
        )->Ok_0);
        return Ok(v);
    }
    let gate = bare_exec(ExpertPart::Gate, e);
    let up = bare_exec(ExpertPart::Up, e);
    let down_name = bare_exec(ExpertPart::Down, e);
    let mut up_at: usize = at;
    if gated {
        let full = gate.text(p);
        match index.entry(full.as_str()) {
            None => {
                return Err(ModelError::MissingWeight(full));
            },
            Some(info) => {
                v.push(
                    PackedMove {
                        name: gate,
                        gpu,
                        into: ExpertBuffer::GateUp,
                        src: 0,
                        dst: at,
                        bytes: info.data_bytes,
                    },
                );
                up_at = at + info.data_bytes;
            },
        }
    }
    let full = up.text(p);
    match index.entry(full.as_str()) {
        None => {
            return Err(ModelError::MissingWeight(full));
        },
        Some(info) => {
            v.push(
                PackedMove {
                    name: up,
                    gpu,
                    into: ExpertBuffer::GateUp,
                    src: 0,
                    dst: up_at,
                    bytes: info.data_bytes,
                },
            );
        },
    }
    let full = down_name.text(p);
    match index.entry(full.as_str()) {
        None => {
            return Err(ModelError::MissingWeight(full));
        },
        Some(info) => {
            v.push(
                PackedMove {
                    name: down_name,
                    gpu,
                    into: ExpertBuffer::Down,
                    src: 0,
                    dst: down_at,
                    bytes: info.data_bytes,
                },
            );
        },
    }
    assert(v@ =~= expert_moves(
        index,
        p@,
        e as int,
        gated,
        gu as nat,
        down as nat,
        start as int,
        num as int,
    )->Ok_0);
    Ok(v)
}

fn plan_packed_moves(
    index: &PackedIndex,
    p: &str,
    ne: usize,
    gated: bool,
    gu: usize,
    down: usize,
    start: usize,
    num: usize,
) -> (r: Result<Vec<PackedMove>, ModelError>)
    requires
        start < num,
        ne as nat * gu as nat <= usize::MAX,
        ne as nat * down as nat <= usize::MAX,
        gated ==> gates_addressable(index, p@, ne as int, gu as nat),
    ensures
        ({
            let want = packed_moves(
                index,
                p@,
                ne as int,
                gated,
                gu as nat,
                down as nat,
                start as int,
                num as int,
            );
            &&& r is Err <==> want is Err
            &&& r matches Err(x) ==> x.is_missing(want->Err_0)
            &&& r matches Ok(v) ==> v@ == want->Ok_0
        }),
{
    let mut v: Vec<PackedMove> = Vec::new();
    let mut e: usize = 0;
    assert(v@ =~= Seq::empty());
    while e < ne
        invariant
            e <= ne,
            start < num,
            ne as nat * gu as nat <= usize::MAX,
            ne as nat * down as nat <= usize::MAX,
            gated ==> gates_addressable(index, p@, ne as int, gu as nat),
            packed_moves(
                index,
                p@,
                e as int,
                gated,
                gu as nat,
                down as nat,
                start as int,
                num as int,
            ) == Ok::<Seq<PackedMove>, Seq<char>>(v@),
        decreases ne - e,
    {
        match plan_expert(index, p, e, ne, gated, gu, down, start, num) {
            Err(x) => {
                proof {
                    lemma_moves_err(
                        index,
                        p@,
                        e + 1,
                        ne as int,
                        gated,
                        gu as nat,
                        down as nat,
                        start as int,
                        num as int,
                    );
                }
                return Err(x);
            },
            Ok(mut more) => {
                v.append(&mut more);
            },
        }
        e += 1;
    }
    Ok(v)
}

/// How packed experts, found under `p`, are spread over the GPUs `start..num`, and
/// what is read.
pub open spec fn is_packed_distribution(
    d: &DistributedMoeWeights,
    moves: Seq<PackedMove>,
    index: &PackedIndex,
    p: Seq<char>,
    ne: nat,
    inter: usize,
    gated: bool,
    start: int,
    num: int,
) -> bool {
    let gu = gate_up_bytes(index, p, ne, gated);
    let down = down_bytes(index, p, ne);
    let format = index.lookup(format_probe(index, p).full(p))->0.format->0;
    let in_dim = index.lookup(size_probe(index, p).full(p))->0.in_features;
    &&& d.expert_device@ == Seq::new(ne, |e: int| home(e, start, num) as usize)
    &&& d.gpus@.len() == num
    &&& forall|g: int|
        0 <= g < num ==> is_packed_share(#[trigger] &d.gpus@[g], g, ne, gu, down, start, num)
    &&& moves == packed_moves(index, p, ne as int, gated, gu, down, start, num)->Ok_0
    &&& d.has_gate_proj == gated
    &&& d.num_experts == ne
    &&& d.inter == inter
    &&& d.gate_up_in_dim == in_dim
    &&& d.gate_up_expert_stride == gu
    &&& d.down_expert_stride == down
    &&& d.gate_up_row_stride == format.row_bytes(in_dim as nat)
    &&& d.weight_format == format
}

/// Plans reading a layer's experts from the archive straight to the GPUs
/// `start_gpu..num_devices`.
pub fn distribute_moe_weights_from_bqnt(
    num_experts: usize,
    inter: usize,
    has_gate_proj: bool,
    index: &PackedIndex,
    layer_idx: usize,
    prefix: &str,
    num_devices: usize,
    start_gpu: usize,
) -> (r: Result<(DistributedMoeWeights, Vec<PackedMove>), ModelError>)
    requires
        start_gpu < num_devices ==> sizes_usable(
            index,
            found_prefix(index, prefix@, layer_idx as nat),
            num_experts as nat,
            has_gate_proj,
        ),
    ensures
        ({
            let fault = packed_fault(
                index,
                prefix@,
                layer_idx as nat,
                num_experts as nat,
                has_gate_proj,
                start_gpu as nat,
                num_devices as nat,
            );
            &&& r is Err <==> fault is Some
            &&& r matches Err(e) ==> e.reports(fault->0)
        }),
        r matches Ok((d, moves)) ==> is_packed_distribution(
            &d,
            moves@,
            index,
            found_prefix(index, prefix@, layer_idx as nat),
            num_experts as nat,
            inter,
            has_gate_proj,
            start_gpu as int,
            num_devices as int,
        ),
{
    if start_gpu >= num_devices {
        return Err(bad_start_error(start_gpu, num_devices));
    }
    let ne: usize = num_experts;
    let found = found_prefix_text(index, prefix, layer_idx);
    let p = found.as_str();
    let fused = index.entry(MoeName::BareFusedGateUp.text(p).as_str()).is_some();
    let gate0 = bare_exec(ExpertPart::Gate, 0);
    let up0 = bare_exec(ExpertPart::Up, 0);
    let probe = if fused {
        MoeName::BareFusedGateUp
    } else if index.entry(gate0.text(p).as_str()).is_some() {
        gate0
    } else {
        up0
    };
    let probe_name = probe.text(p);
    let weight_format = match index.entry(probe_name.as_str()) {
        None => {
            return Err(ModelError::MissingWeight(probe_name));
        },
        Some(info) => match info.format {
            Some(f) => f,
            None => {
                let mut t: String = joined(
                    probe_name.as_str(),
                    ": not a linear bqnt format code ",
                );
                t.append(decimal_text(info.code as usize).as_str());
                return Err(ModelError::MissingWeight(t));
            },
        },
    };
    let size_name = if fused {
        MoeName::BareFusedGateUp.text(p)
    } else {
        up0.text(p)
    };
    let down_name = if fused {
        MoeName::BareFusedDown.text(p)
    } else {
        bare_exec(ExpertPart::Down, 0).text(p)
    };
    let size = match index.entry(size_name.as_str()) {
        Some(i) => i,
        None => {
            return Err(ModelError::MissingWeight(size_name));
        },
    };
    let down_size = match index.entry(down_name.as_str()) {
        Some(i) => i,
        None => {
            return Err(ModelError::MissingWeight(down_name));
        },
    };
    let gu: usize = if fused {
        size.data_bytes / ne
    } else if has_gate_proj {
        size.data_bytes * 2
    } else {
        size.data_bytes
    };
    let down: usize = if fused {
        down_size.data_bytes / ne
    } else {
        down_size.data_bytes
    };
    let row: usize = weight_format.row_stride(size.in_features);
    let expert_device = expert_devices(ne, start_gpu, num_devices);
    let mut gpus: Vec<GpuExperts> = Vec::new();
    let mut g: usize = 0;
    while g < num_devices
        invariant
            g <= num_devices,
            start_gpu < num_devices,
            ne as nat * gu as nat <= usize::MAX,
            ne as nat * down as nat <= usize::MAX,
            gpus@.len() == g,
            forall|k: int|
                0 <= k < g ==> is_packed_share(
                    #[trigger] &gpus@[k],
                    k,
                    ne as nat,
                    gu as nat,
                    down as nat,
                    start_gpu as int,
                    num_devices as int,
                ),
        decreases num_devices - g,
    {
        let (slot_map, n) = gpu_slots(ne, g, start_gpu, num_devices);
        proof {
            arith::lemma_mul_mono(n as int, ne as int, gu as int);
            arith::lemma_mul_mono(n as int, ne as int, down as int);
        }
        gpus.push(
            GpuExperts {
                gpu: g,
                gate_up_bytes: n * gu,
                down_bytes: n * down,
                local_expert_count: n,
                slot_map,
            },
        );
        g += 1;
    }
    let moves = match plan_packed_moves(
        index,
        p,
        ne,
        has_gate_proj,
        gu,
        down,
        start_gpu,
        num_devices,
    ) {
        Err(e) => {
            return Err(e);
        },
        Ok(m) => m,
    };
    Ok(
        (
            DistributedMoeWeights {
                gpus,
                expert_device,
                has_gate_proj,
                num_experts: ne,
                inter,
                gate_up_in_dim: size.in_features,
                gate_up_expert_stride: gu,
                down_expert_stride: down,
                gate_up_row_stride: row,
                weight_format,
            },
            moves,
        ),
    )
}

/// Where all experts have the same sizes, an expert's pieces stay inside its slot of
/// the buffer that its GPU reserves.
pub proof fn law_moves_inside_buffer(
    index: &PackedIndex,
    p: Seq<char>,
    e: int,
    ne: nat,
    gated: bool,
    start: int,
    num: int,
    i: int,
)
    requires
        0 <= e < ne,
        0 <= start < num <= usize::MAX,
        index.lookup(size_probe(index, p).full(p)) is Some,
        index.lookup(down_probe(index, p).full(p)) is Some,
        index.lookup(format_probe(index, p).full(p)) is Some,
        index.lookup(format_probe(index, p).full(p))->0.format is Some,
        sizes_usable(index, p, ne, gated),
        uniform(index, p, ne as int),
    ensures
        ({
            let gu = gate_up_bytes(index, p, ne, gated);
            let down = down_bytes(index, p, ne);
            expert_moves(index, p, e, gated, gu, down, start, num) matches Ok(v) ==> (0 <= i
                < v.len() ==> {
                let m = v[i];
                let stride = if m.into == ExpertBuffer::Down {
                    down
                } else {
                    gu
                };
                let at = slot(e, start, num) * stride;
                &&& m.gpu == home(e, start, num)
                &&& at <= m.dst
                &&& m.dst + m.bytes <= at + stride
                &&& at + stride <= hosted(ne as int, home(e, start, num), start, num) * stride
            })
        }),
{
    let gu = gate_up_bytes(index, p, ne, gated);
    let down = down_bytes(index, p, ne);
    let n = hosted(ne as int, home(e, start, num), start, num);
    law_home_and_slot(e, start, num);
    law_slot_below_count(e, ne as int, start, num);
    lemma_hosted_bound(ne as int, home(e, start, num), start, num);
    let k = slot(e, start, num) as int;
    arith::lemma_scaled_index(k, n as int, gu as int);
    arith::lemma_scaled_index(k, n as int, down as int);
    arith::lemma_mul_mono(n as int, ne as int, gu as int);
    arith::lemma_mul_mono(n as int, ne as int, down as int);
}

} // verus!
