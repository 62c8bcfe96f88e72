//! Spreading a loaded model over several GPUs.

use vstd::prelude::*;
use vstd::string::*;
use crate::arith;
use crate::config;
use crate::config::{count_layers_before, LayerConfig, LayerType, ModelConfig};
use crate::error::{missing, Fault, ModelError};
use crate::model::instance::Model;
use crate::multi_gpu;
use crate::multi_gpu::{AttnShare, BringUp, MultiGpuContext, WeightSlice};
use crate::moe_weights::distribute;
use crate::moe_weights::distribute::{
    distribute_moe_weights_from_bqnt, distribute_moe_weights_from_ref, DistributedMoeWeights,
    ExpertMove, LoadedExperts, PackedMove,
};
use crate::ops::WeightFormat;
use crate::tensors::PackedIndex;
use crate::text;
use crate::text::{decimal_text, joined};

verus! {

/// A layer's experts, and whether they were loaded to the first GPU.
#[derive(Clone, Copy, Debug, PartialEq, Eq, Structural)]
pub struct LayerExperts {
    pub loaded: bool,
    pub shape: LoadedExperts,
}

/// How a layer's experts reach their GPUs.
pub enum LayerDistribution {
    /// The layer has none.
    NoExperts,
    /// They were loaded to the first GPU and are copied from there.
    FromFirstGpu { dist: DistributedMoeWeights, moves: Vec<ExpertMove> },
    /// They are read from the archive.
    FromArchive { dist: DistributedMoeWeights, moves: Vec<PackedMove> },
}

/// How a model is spread.
pub struct DistributionPlan {
    pub num_devices: usize,
    /// First GPU that receives experts: the first one only where it is alone.
    pub start_gpu: usize,
    /// How several GPUs are brought up.
    pub bring_up: Option<BringUp>,
    pub layers: Vec<LayerDistribution>,
    /// Heads of each GPU; none on a single GPU or without attention.
    pub attention: Option<AttnShare>,
}

/// Some layer's experts were loaded, or were left out.
pub open spec fn some_layer(experts: Seq<Option<LayerExperts>>, loaded: bool) -> bool {
    exists|i: int|
        0 <= i < experts.len() && (#[trigger] experts[i]) is Some && experts[i]->0.loaded == loaded
}

pub open spec fn too_few_heads(heads: nat, gpus: nat) -> Seq<char> {
    "multi-GPU attention requires num_q_heads ("@ + text::decimal(heads) + ") >= num_devices ("@
        + text::decimal(gpus) + ")"@
}

pub open spec fn uneven_heads(heads: nat, gpus: nat) -> Seq<char> {
    "multi-GPU attention requires num_q_heads ("@ + text::decimal(heads)
        + ") to be divisible by num_devices ("@ + text::decimal(gpus) + ")"@
}

/// What keeps the experts of layer `i` from being spread. Where any layer's experts
/// were loaded, all are taken from the first GPU.
pub open spec fn expert_fault(
    experts: Seq<Option<LayerExperts>>,
    archive: Option<&PackedIndex>,
    prefix: Seq<char>,
    gpus: nat,
    i: int,
) -> Option<Fault> {
    if experts[i] is None || some_layer(experts, true) {
        None
    } else {
        match archive {
            None => Some(
                Fault::Missing("Multi-GPU requires BQNT_PATH for direct expert loading"@),
            ),
            Some(index) => distribute::packed_fault(
                index,
                prefix,
                i as nat,
                experts[i]->0.shape.num_experts as nat,
                experts[i]->0.shape.has_gate_proj,
                start_of(gpus),
                gpus,
            ),
        }
    }
}

/// The fault of the first of the first `n` layers that has one.
pub open spec fn first_expert_fault(
    experts: Seq<Option<LayerExperts>>,
    archive: Option<&PackedIndex>,
    prefix: Seq<char>,
    gpus: nat,
    n: int,
) -> Option<Fault>
    decreases n,
{
    if n <= 0 {
        None
    } else {
        match first_expert_fault(experts, archive, prefix, gpus, n - 1) {
            Some(f) => Some(f),
            None => expert_fault(experts, archive, prefix, gpus, n - 1),
        }
    }
}

proof fn lemma_first_expert_fault(
    experts: Seq<Option<LayerExperts>>,
    archive: Option<&PackedIndex>,
    prefix: Seq<char>,
    gpus: nat,
    n: int,
    m: int,
)
    requires
        n <= m,
        first_expert_fault(experts, archive, prefix, gpus, n) is Some,
    ensures
        first_expert_fault(experts, archive, prefix, gpus, m) == first_expert_fault(
            experts,
            archive,
            prefix,
            gpus,
            n,
        ),
    decreases m - n,
{
    if n < m {
        lemma_first_expert_fault(experts, archive, prefix, gpus, n, m - 1);
    }
}

/// How the experts of layer `i` reach their GPUs.
pub open spec fn is_spread(
    l: &LayerDistribution,
    experts: Seq<Option<LayerExperts>>,
    archive: Option<&PackedIndex>,
    prefix: Seq<char>,
    hidden: usize,
    gpus: nat,
    i: int,
) -> bool {
    let (start, num) = (start_of(gpus) as int, gpus as int);
    match experts[i] {
        None => l is NoExperts,
        Some(x) => if some_layer(experts, true) {
            l is FromFirstGpu && distribute::is_ref_distribution(
                &l->FromFirstGpu_dist,
                l->FromFirstGpu_moves@,
                x.shape,
                hidden,
                start,
                num,
            )
        } else {
            archive is Some && l is FromArchive && distribute::is_packed_distribution(
                &l->FromArchive_dist,
                l->FromArchive_moves@,
                archive->0,
                distribute::found_prefix(archive->0, prefix, i as nat),
                x.shape.num_experts as nat,
                x.shape.inter,
                x.shape.has_gate_proj,
                start,
                num,
            )
        },
    }
}

/// The sizes of the experts of layer `i` are usable.
pub open spec fn spreadable(
    experts: Seq<Option<LayerExperts>>,
    archive: Option<&PackedIndex>,
    prefix: Seq<char>,
    hidden: usize,
    i: int,
) -> bool {
    experts[i] matches Some(x) ==> if some_layer(experts, true) {
        x.shape.fits(hidden)
    } else {
        archive matches Some(index) ==> distribute::sizes_usable(
            index,
            distribute::found_prefix(index, prefix, i as nat),
            x.shape.num_experts as nat,
            x.shape.has_gate_proj,
        )
    }
}

/// The first thing that keeps a model from being spread.
pub open spec fn distribution_fault(
    config: &ModelConfig,
    experts: Seq<Option<LayerExperts>>,
    archive: Option<&PackedIndex>,
    prefix: Seq<char>,
    gpus: nat,
) -> Option<Fault> {
    let heads = config.num_q_heads as nat;
    let in_experts = first_expert_fault(experts, archive, prefix, gpus, experts.len() as int);
    if gpus <= 1 && some_layer(experts, false) {
        Some(
            Fault::Missing(
                "MULTI_GPU=1 but only 1 GPU available: expert weights were skipped at load time and cannot be used. Do not set MULTI_GPU=1 with a single GPU."@,
            ),
        )
    } else if in_experts is Some {
        in_experts
    } else if config::count_layers(config.layers@, LayerType::Attention) > 0 && heads < gpus {
        Some(Fault::Invalid(too_few_heads(heads, gpus)))
    } else if config::count_layers(config.layers@, LayerType::Attention) > 0 && heads % gpus != 0 {
        Some(Fault::Invalid(uneven_heads(heads, gpus)))
    } else {
        None
    }
}

/// Each GPU's share of the heads: queries are divided, keys and values replicated.
pub open spec fn share_of(config: &ModelConfig, gpus: nat) -> AttnShare {
    AttnShare {
        local_nqh: (config.num_q_heads as nat / gpus) as usize,
        local_nkh: config.num_kv_heads,
        head_dim: config.head_dim,
        max_seq_len: config.max_seq_len,
        hidden_size: config.hidden_size,
        q_mult: if config.has_output_gate {
            2
        } else {
            1
        },
    }
}

/// First GPU that receives experts: the second, unless there is only one.
pub open spec fn start_of(gpus: nat) -> nat {
    if gpus > 1 {
        1
    } else {
        0
    }
}

fn any_layer(experts: &Vec<Option<LayerExperts>>, loaded: bool) -> (r: bool)
    ensures
        r == some_layer(experts@, loaded),
{
    let mut i: usize = 0;
    while i < experts.len()
        invariant
            i <= experts@.len(),
            forall|k: int|
                0 <= k < i ==> !((#[trigger] experts@[k]) is Some && experts@[k]->0.loaded
                    == loaded),
        decreases experts@.len() - i,
    {
        match experts[i] {
            Some(x) => {
                if x.loaded == loaded {
                    assert(experts@[i as int] is Some && experts@[i as int]->0.loaded == loaded);
                    return true;
                }
            },
            None => {},
        }
        i += 1;
    }
    false
}

/// Spreads the experts of layer `i`.
fn spread_layer(
    experts: &Vec<Option<LayerExperts>>,
    on_first: bool,
    archive: Option<&PackedIndex>,
    prefix: &str,
    hidden: usize,
    gpus: usize,
    i: usize,
) -> (r: Result<LayerDistribution, ModelError>)
    requires
        i < experts@.len(),
        gpus > 0,
        on_first == some_layer(experts@, true),
        spreadable(experts@, archive, prefix@, hidden, i as int),
    ensures
        ({
            let fault = expert_fault(experts@, archive, prefix@, gpus as nat, i as int);
            &&& r is Err <==> fault is Some
            &&& r matches Err(e) ==> e.reports(fault->0)
            &&& r matches Ok(l) ==> is_spread(
                &l,
                experts@,
                archive,
                prefix@,
                hidden,
                gpus as nat,
                i as int,
            )
        }),
{
    let start: usize = if gpus > 1 {
        1
    } else {
        0
    };
    let x: LayerExperts = match experts[i] {
        None => {
            return Ok(LayerDistribution::NoExperts);
        },
        Some(x) => x,
    };
    if on_first {
        return match distribute_moe_weights_from_ref(&x.shape, gpus, hidden, start) {
            Ok((dist, moves)) => Ok(LayerDistribution::FromFirstGpu { dist, moves }),
            Err(e) => Err(e),
        };
    }
    match archive {
        None => Err(missing("Multi-GPU requires BQNT_PATH for direct expert loading")),
        Some(index) => match distribute_moe_weights_from_bqnt(
            x.shape.num_experts,
            x.shape.inter,
            x.shape.has_gate_proj,
            index,
            i,
            prefix,
            gpus,
            start,
        ) {
            Ok((dist, moves)) => Ok(LayerDistribution::FromArchive { dist, moves }),
            Err(e) => Err(e),
        },
    }
}

/// Spreads the experts of all layers.
fn spread_layers(
    experts: &Vec<Option<LayerExperts>>,
    archive: Option<&PackedIndex>,
    prefix: &str,
    hidden: usize,
    gpus: usize,
) -> (r: Result<Vec<LayerDistribution>, ModelError>)
    requires
        gpus > 0,
        forall|i: int|
            0 <= i < experts@.len() ==> #[trigger] spreadable(
                experts@,
                archive,
                prefix@,
                hidden,
                i,
            ),
    ensures
        ({
            let fault = first_expert_fault(
                experts@,
                archive,
                prefix@,
                gpus as nat,
                experts@.len() as int,
            );
            &&& r is Err <==> fault is Some
            &&& r matches Err(e) ==> e.reports(fault->0)
            &&& r matches Ok(v) ==> {
                &&& v@.len() == experts@.len()
                &&& forall|i: int|
                    0 <= i < v@.len() ==> is_spread(
                        #[trigger] &v@[i],
                        experts@,
                        archive,
                        prefix@,
                        hidden,
                        gpus as nat,
                        i,
                    )
            }
        }),
{
    let on_first = any_layer(experts, true);
    let mut v: Vec<LayerDistribution> = Vec::new();
    let mut i: usize = 0;
    while i < experts.len()
        invariant
            i <= experts@.len(),
            gpus > 0,
            on_first == some_layer(experts@, true),
            forall|k: int|
                0 <= k < experts@.len() ==> #[trigger] spreadable(
                    experts@,
                    archive,
                    prefix@,
                    hidden,
                    k,
                ),
            first_expert_fault(experts@, archive, prefix@, gpus as nat, i as int) is None,
            v@.len() == i,
            forall|k: int|
                0 <= k < i ==> is_spread(
                    #[trigger] &v@[k],
                    experts@,
                    archive,
                    prefix@,
                    hidden,
                    gpus as nat,
                    k,
                ),
        decreases experts@.len() - i,
    {
        assert(spreadable(experts@, archive, prefix@, hidden, i as int));
        match spread_layer(experts, on_first, archive, prefix, hidden, gpus, i) {
            Ok(l) => {
                v.push(l);
            },
            Err(e) => {
                proof {
                    lemma_first_expert_fault(
                        experts@,
                        archive,
                        prefix@,
                        gpus as nat,
                        i + 1,
                        experts@.len() as int,
                    );
                }
                return Err(e);
            },
        }
        i += 1;
    }
    Ok(v)
}

fn heads_error(few: bool, heads: usize, gpus: usize) -> (r: ModelError)
    ensures
        r.is_invalid(
            if few {
                too_few_heads(heads as nat, gpus as nat)
            } else {
                uneven_heads(heads as nat, gpus as nat)
            },
        ),
{
    let mut t: String = joined(
        "multi-GPU attention requires num_q_heads (",
        decimal_text(heads).as_str(),
    );
    if few {
        t.append(") >= num_devices (");
    } else {
        t.append(") to be divisible by num_devices (");
    }
    t.append(decimal_text(gpus).as_str());
    t.append(")");
    ModelError::InvalidConfig(t)
}

impl Model {
    /// Spreads a model over `num_devices` GPUs: places the experts of every layer and
    /// divides the heads. `experts` describes the experts of each layer that has any;
    /// `archive` is the index of the model's archive, where there is one. A model
    /// without experts is left as it is.
    pub fn enable_distributed_moe(
        &mut self,
        experts: &Vec<Option<LayerExperts>>,
        archive: Option<&PackedIndex>,
        num_devices: usize,
        reverse_warm_up: bool,
    ) -> (r: Result<Option<DistributionPlan>, ModelError>)
        requires
            0 < num_devices <= u32::MAX,
            forall|i: int|
                0 <= i < experts@.len() ==> #[trigger] spreadable(
                    experts@,
                    archive,
                    old(self).weight_prefix@,
                    old(self).config.hidden_size,
                    i,
                ),
        ensures
            final(self).same_model(old(self)),
            final(self).paged == old(self).paged,
            !old(self).has_moe ==> r is Ok && r->Ok_0 is None && final(self).multi_gpu
                == old(self).multi_gpu,
            old(self).has_moe ==> {
                let config = old(self).config;
                let prefix = old(self).weight_prefix@;
                let gpus = num_devices as nat;
                let fault = distribution_fault(&config, experts@, archive, prefix, gpus);
                &&& r is Err <==> fault is Some
                &&& r matches Err(e) ==> e.reports(fault->0) && final(self).multi_gpu
                    == old(self).multi_gpu
                &&& r matches Ok(p) ==> p is Some && {
                    let plan = p->0;
                    let n = config::count_layers(config.layers@, LayerType::Attention);
                    &&& plan.num_devices == num_devices
                    &&& plan.start_gpu == start_of(gpus)
                    &&& plan.layers@.len() == experts@.len()
                    &&& forall|i: int|
                        0 <= i < plan.layers@.len() ==> is_spread(
                            #[trigger] &plan.layers@[i],
                            experts@,
                            archive,
                            prefix,
                            config.hidden_size,
                            gpus,
                            i,
                        )
                    &&& plan.attention == if num_devices > 1 && n > 0 {
                        Some(share_of(&config, gpus))
                    } else {
                        None
                    }
                    &&& multi_gpu::brought_up(
                        &final(self).multi_gpu,
                        &plan.bring_up,
                        num_devices,
                        reverse_warm_up,
                    )
                }
            },
    {
        if !self.has_moe {
            return Ok(None);
        }
        if num_devices <= 1 && any_layer(experts, false) {
            return Err(
                missing(
                    "MULTI_GPU=1 but only 1 GPU available: expert weights were skipped at load time and cannot be used. Do not set MULTI_GPU=1 with a single GPU.",
                ),
            );
        }
        let spread = spread_layers(
            experts,
            archive,
            self.weight_prefix.as_str(),
            self.config.hidden_size,
            num_devices,
        );
        let layers = match spread {
            Ok(v) => v,
            Err(e) => {
                return Err(e);
            },
        };
        let config = &self.config;
        let attn_layers: usize = count_layers_before(
            &config.layers,
            config.layers.len(),
            LayerType::Attention,
        );
        assert(config.layers@.take(config.layers@.len() as int) =~= config.layers@);
        let mut attention: Option<AttnShare> = None;
        if attn_layers > 0 {
            if config.num_q_heads < num_devices {
                return Err(heads_error(true, config.num_q_heads, num_devices));
            }
            if config.num_q_heads % num_devices != 0 {
                return Err(heads_error(false, config.num_q_heads, num_devices));
            }
            if num_devices > 1 {
                let q_mult: usize = if config.has_output_gate {
                    2
                } else {
                    1
                };
                attention =
                Some(
                    AttnShare {
                        local_nqh: config.num_q_heads / num_devices,
                        local_nkh: config.num_kv_heads,
                        head_dim: config.head_dim,
                        max_seq_len: config.max_seq_len,
                        hidden_size: config.hidden_size,
                        q_mult,
                    },
                );
            }
        }
        let start_gpu: usize = if num_devices > 1 {
            1
        } else {
            0
        };
        let bring_up: Option<BringUp> = match MultiGpuContext::init(num_devices, reverse_warm_up) {
            Some((ctx, up)) => {
                self.multi_gpu = Some(ctx);
                Some(up)
            },
            None => {
                self.multi_gpu = None;
                None
            },
        };
        Ok(Some(DistributionPlan { num_devices, start_gpu, bring_up, layers, attention }))
    }
}

/// A model that can be spread always has a GPU to receive its experts.
pub proof fn law_start_gpu_valid(num_devices: nat)
    requires
        num_devices > 0,
    ensures
        start_of(num_devices) < num_devices,
{
}

// ---- splitting attention weights ----

/// Formats of a layer's attention projections.
#[derive(Clone, Copy, Debug, PartialEq, Eq, Structural)]
pub struct AttnFormats {
    pub q: WeightFormat,
    pub k: WeightFormat,
    pub v: WeightFormat,
}

/// A worker's slices of one attention layer.
#[derive(Clone, Copy, Debug, PartialEq, Eq, Structural)]
pub struct AttnSlices {
    pub layer: usize,
    pub gpu: usize,
    pub q: WeightSlice,
    pub k: WeightSlice,
    pub v: WeightSlice,
}

/// Rows of a GPU's query slice.
pub open spec fn q_rows(s: AttnShare) -> nat {
    s.local_nqh as nat * s.head_dim as nat * s.q_mult as nat
}

/// The slices of GPU `gpu`: its own query rows, all key and value rows.
pub open spec fn slices_of(layer: usize, gpu: nat, f: AttnFormats, s: AttnShare) -> AttnSlices {
    let kv = (s.local_nkh as nat * s.head_dim as nat) as usize;
    let h = s.hidden_size;
    AttnSlices {
        layer,
        gpu: gpu as usize,
        q: multi_gpu::slice_of(f.q, (gpu * q_rows(s)) as usize, q_rows(s) as usize, h),
        k: multi_gpu::slice_of(f.k, 0, kv, h),
        v: multi_gpu::slice_of(f.v, 0, kv, h),
    }
}

/// Slices of the workers among the first `n` GPUs.
pub open spec fn layer_slices(layer: usize, f: AttnFormats, s: AttnShare, n: int) -> Seq<AttnSlices>
    decreases n,
{
    if n <= 1 {
        Seq::empty()
    } else {
        layer_slices(layer, f, s, n - 1).push(slices_of(layer, (n - 1) as nat, f, s))
    }
}

/// Slices of all attention layers among the first `m`.
pub open spec fn all_slices(
    layers: Seq<LayerConfig>,
    formats: Seq<AttnFormats>,
    s: AttnShare,
    gpus: int,
    m: int,
) -> Seq<AttnSlices>
    decreases m,
{
    if m <= 0 {
        Seq::empty()
    } else {
        let rest = all_slices(layers, formats, s, gpus, m - 1);
        if layers[m - 1].layer_type == LayerType::Attention {
            rest + layer_slices((m - 1) as usize, formats[m - 1], s, gpus)
        } else {
            rest
        }
    }
}

/// All slices are addressable.
pub open spec fn slices_fit(formats: Seq<AttnFormats>, s: AttnShare, gpus: nat) -> bool {
    &&& s.local_nqh as nat * s.head_dim as nat <= usize::MAX
    &&& s.local_nkh as nat * s.head_dim as nat <= usize::MAX
    &&& q_rows(s) <= usize::MAX
    &&& gpus * q_rows(s) <= usize::MAX
    &&& forall|i: int|
        0 <= i < formats.len() ==> {
            let f = #[trigger] formats[i];
            let h = s.hidden_size as nat;
            &&& f.q.row_bytes(h) <= usize::MAX
            &&& f.k.row_bytes(h) <= usize::MAX
            &&& f.v.row_bytes(h) <= usize::MAX
            &&& gpus * q_rows(s) * f.q.row_bytes(h) <= usize::MAX
            &&& s.local_nkh as nat * s.head_dim as nat * f.k.row_bytes(h) <= usize::MAX
            &&& s.local_nkh as nat * s.head_dim as nat * f.v.row_bytes(h) <= usize::MAX
        }
}

fn plan_layer_slices(layer: usize, f: AttnFormats, s: AttnShare, gpus: usize) -> (r: Vec<AttnSlices>)
    requires
        slices_fit(seq![f], s, gpus as nat),
    ensures
        r@ == layer_slices(layer, f, s, gpus as int),
{
    let rows: usize = s.local_nqh * s.head_dim * s.q_mult;
    let kv: usize = s.local_nkh * s.head_dim;
    let h: usize = s.hidden_size;
    assert(seq![f][0] == f);
    let ghost bytes = f.q.row_bytes(h as nat) as int;
    proof {
        assert(0 * f.k.row_bytes(h as nat) == 0) by (nonlinear_arith);
        assert(0 * f.v.row_bytes(h as nat) == 0) by (nonlinear_arith);
    }
    let k = MultiGpuContext::copy_weight_slice(f.k, 0, kv, h);
    let v = MultiGpuContext::copy_weight_slice(f.v, 0, kv, h);
    let mut r: Vec<AttnSlices> = Vec::new();
    let mut g: usize = 1;
    assert(r@ =~= layer_slices(layer, f, s, 1));
    while g < gpus
        invariant
            1 <= g,
            g <= gpus || gpus <= 1 && g == 1,
            rows == q_rows(s),
            h == s.hidden_size,
            bytes == f.q.row_bytes(h as nat),
            bytes <= usize::MAX,
            gpus as nat * rows as nat <= usize::MAX,
            gpus as nat * rows as nat * f.q.row_bytes(h as nat) <= usize::MAX,
            k == multi_gpu::slice_of(
                f.k,
                0,
                (s.local_nkh as nat * s.head_dim as nat) as usize,
                h,
            ),
            v == multi_gpu::slice_of(
                f.v,
                0,
                (s.local_nkh as nat * s.head_dim as nat) as usize,
                h,
            ),
            r@ == layer_slices(layer, f, s, g as int),
        decreases gpus - g,
    {
        proof {
            let (gi, n, w) = (g as int, gpus as int, rows as int);
            arith::lemma_scaled_index(gi, n, w);
            arith::lemma_mul_mono(gi * w, n * w, bytes);
            arith::lemma_mul_mono(w, n * w, bytes);
        }
        let q = MultiGpuContext::copy_weight_slice(f.q, g * rows, rows, h);
        r.push(AttnSlices { layer, gpu: g, q, k, v });
        g += 1;
    }
    r
}

/// Plans copying each worker's rows of the attention projections. The first GPU
/// reads the whole matrices.
pub fn init_split_attn_weights(
    layers: &Vec<LayerConfig>,
    formats: &Vec<AttnFormats>,
    share: AttnShare,
    num_gpus: usize,
) -> (r: Vec<AttnSlices>)
    requires
        formats@.len() == layers@.len(),
        slices_fit(formats@, share, num_gpus as nat),
    ensures
        r@ == all_slices(layers@, formats@, share, num_gpus as int, layers@.len() as int),
{
    let mut r: Vec<AttnSlices> = Vec::new();
    let mut i: usize = 0;
    assert(r@ =~= Seq::empty());
    while i < layers.len()
        invariant
            i <= layers@.len(),
            formats@.len() == layers@.len(),
            slices_fit(formats@, share, num_gpus as nat),
            r@ == all_slices(layers@, formats@, share, num_gpus as int, i as int),
        decreases layers@.len() - i,
    {
        if layers[i].layer_type == LayerType::Attention {
            let f = formats[i];
            assert(formats@[i as int] == f);
            assert(slices_fit(seq![f], share, num_gpus as nat));
            let mut more = plan_layer_slices(i, f, share, num_gpus);
            r.append(&mut more);
        }
        i += 1;
    }
    r
}

/// The query slices of neighbouring GPUs are adjacent, and those of all GPUs are
/// the whole projection.
pub proof fn law_query_slices_tile(layer: usize, g: nat, gpus: nat, f: AttnFormats, s: AttnShare)
    requires
        g + 1 <= gpus,
        gpus <= usize::MAX,
        slices_fit(seq![f], s, gpus),
    ensures
        ({
            let a = slices_of(layer, g, f, s);
            let b = slices_of(layer, g + 1, f, s);
            &&& a.q.out_dim == q_rows(s)
            &&& a.q.byte_offset + a.q.byte_len == (g + 1) * q_rows(s) * f.q.row_bytes(
                s.hidden_size as nat,
            )
            &&& g + 1 < gpus ==> a.q.byte_offset + a.q.byte_len == b.q.byte_offset
            &&& a.k == b.k
            &&& a.v == b.v
        }),
{
    assert(seq![f][0] == f);
    let row = f.q.row_bytes(s.hidden_size as nat) as int;
    let w = q_rows(s) as int;
    let (gi, n) = (g as int, gpus as int);
    arith::lemma_scaled_index(gi, n, w);
    arith::lemma_mul_mono(gi * w, n * w, row);
    arith::lemma_mul_mono(w, n * w, row);
    assert((gi + 1) * w * row == gi * w * row + w * row) by (nonlinear_arith);
    if g + 1 < gpus {
        arith::lemma_scaled_index(gi + 1, n, w);
        arith::lemma_mul_mono((gi + 1) * w, n * w, row);
    }
}

/// Key and value projections are replicated: a worker gets all rows of each, in that
/// matrix's own format.
pub proof fn law_kv_slices_whole(layer: usize, g: nat, gpus: nat, f: AttnFormats, s: AttnShare)
    requires
        g < gpus,
        gpus <= usize::MAX,
        slices_fit(seq![f], s, gpus),
    ensures
        ({
            let a = slices_of(layer, g, f, s);
            let rows = s.local_nkh * s.head_dim;
            &&& a.layer == layer
            &&& a.gpu == g
            &&& (a.k.out_dim, a.v.out_dim) == (rows as usize, rows as usize)
            &&& (a.q.format, a.k.format, a.v.format) == (f.q, f.k, f.v)
            &&& (a.q.in_dim, a.k.in_dim, a.v.in_dim) == (s.hidden_size, s.hidden_size, s.hidden_size)
            &&& (a.k.byte_offset, a.v.byte_offset) == (0usize, 0usize)
            &&& a.k.byte_len == rows * f.k.row_bytes(s.hidden_size as nat)
            &&& a.v.byte_len == rows * f.v.row_bytes(s.hidden_size as nat)
        }),
{
    assert(seq![f][0] == f);
    let rows = s.local_nkh as int * s.head_dim as int;
    assert(0 <= rows) by (nonlinear_arith)
        requires
            rows == s.local_nkh as int * s.head_dim as int,
    ;
    let (x, y) = (
        f.k.row_bytes(s.hidden_size as nat) as int,
        f.v.row_bytes(s.hidden_size as nat) as int,
    );
    assert(0 * x == 0 && 0 * y == 0);
    arith::lemma_mul_mono(0, rows, x);
    arith::lemma_mul_mono(0, rows, y);
}

proof fn lemma_layer_slices(layer: usize, f: AttnFormats, s: AttnShare, n: int)
    requires
        0 <= n <= usize::MAX,
    ensures
        ({
            let list = layer_slices(layer, f, s, n);
            &&& list.len() == if n <= 1 {
                0
            } else {
                n - 1
            }
            &&& forall|k: int|
                0 <= k < list.len() ==> #[trigger] list[k] == slices_of(
                    layer,
                    (k + 1) as nat,
                    f,
                    s,
                )
        }),
    decreases n,
{
    if n > 1 {
        lemma_layer_slices(layer, f, s, n - 1);
    }
}

/// Every worker gets its slices of every attention layer; nothing else is copied.
pub proof fn law_every_worker_sliced(
    layers: Seq<LayerConfig>,
    formats: Seq<AttnFormats>,
    s: AttnShare,
    gpus: int,
    m: int,
)
    requires
        0 <= m <= layers.len(),
        m <= usize::MAX,
        0 <= gpus <= usize::MAX,
    ensures
        ({
            let list = all_slices(layers, formats, s, gpus, m);
            &&& forall|l: int, g: int|
                0 <= l < m && layers[l].layer_type == LayerType::Attention && 1 <= g < gpus
                    ==> list.contains(
                    #[trigger] slices_of(l as usize, g as nat, formats[l], s),
                )
            &&& forall|k: int|
                0 <= k < list.len() ==> {
                    let (l, g) = ((#[trigger] list[k]).layer as int, list[k].gpu as nat);
                    &&& l < m
                    &&& layers[l].layer_type == LayerType::Attention
                    &&& 1 <= g < gpus
                    &&& list[k] == slices_of(l as usize, g, formats[l], s)
                }
        }),
    decreases m,
{
    if m > 0 {
        law_every_worker_sliced(layers, formats, s, gpus, m - 1);
        let rest = all_slices(layers, formats, s, gpus, m - 1);
        let list = all_slices(layers, formats, s, gpus, m);
        let own = layer_slices((m - 1) as usize, formats[m - 1], s, gpus);
        let attends = layers[m - 1].layer_type == LayerType::Attention;
        lemma_layer_slices((m - 1) as usize, formats[m - 1], s, gpus);
        assert forall|l: int, g: int|
            0 <= l < m && layers[l].layer_type == LayerType::Attention && 1 <= g
                < gpus implies list.contains(
            #[trigger] slices_of(l as usize, g as nat, formats[l], s),
        ) by {
            let x = slices_of(l as usize, g as nat, formats[l], s);
            if l < m - 1 {
                let k = rest.index_of(x);
                assert(list[k] == x);
            } else {
                assert(own[g - 1] == x);
                assert(list[rest.len() + g - 1] == x);
            }
        }
        assert forall|k: int| 0 <= k < list.len() implies ({
            let (l, g) = ((#[trigger] list[k]).layer as int, list[k].gpu as nat);
            &&& l < m
            &&& layers[l].layer_type == LayerType::Attention
            &&& 1 <= g < gpus
            &&& list[k] == slices_of(l as usize, g, formats[l], s)
        }) by {
            if k < rest.len() {
                assert(list[k] == rest[k]);
            } else {
                assert(list[k] == own[k - rest.len()]);
            }
        }
    }
}

/// The GPUs' shares of the query heads make up all of them; keys and values are not
/// divided.
pub proof fn law_shares_make_whole(config: &ModelConfig, gpus: nat)
    requires
        gpus > 0,
        config.num_q_heads as nat % gpus == 0,
    ensures
        ({
            let s = share_of(config, gpus);
            &&& s.local_nqh * gpus == config.num_q_heads
            &&& s.local_nkh == config.num_kv_heads
            &&& (s.head_dim, s.hidden_size) == (config.head_dim, config.hidden_size)
            &&& s.max_seq_len == config.max_seq_len
            &&& s.q_mult == if config.has_output_gate {
                2
            } else {
                1int
            }
        }),
{
    let (q, n) = (config.num_q_heads as int, gpus as int);
    vstd::arithmetic::div_mod::lemma_fundamental_div_mod(q, n);
    assert((q / n) * n == n * (q / n)) by (nonlinear_arith);
    assert(q / n <= q) by (nonlinear_arith)
        requires
            q == n * (q / n),
            n >= 1,
            q >= 0,
    ;
    assert(q / n >= 0) by (nonlinear_arith)
        requires
            q >= 0,
            n >= 1,
    ;
}

} // verus!
