//! The whole load plan of an expert layer.

use vstd::prelude::*;
use vstd::string::*;
use crate::config::{FfnType, ModelConfig};
use crate::error::{Fault, ModelError};
use crate::moe_weights::load;
use crate::moe_weights::load::{
    plan_down, plan_gate_up, BiasLoad, ExpertLoad, ExpertSource, HostPiece, LatentLoad, MatrixLoad,
    MoeLoadPlan, MoeShape, PackedPiece, SharedLoad, VectorLoad,
};
use crate::moe_weights::names;
use crate::moe_weights::names::{first_found, ExpertPart, ExpertScheme, MoeName};
use crate::tensors::{Place, Sources};
use crate::text::joined;

verus! {

/// Sizes of the layer that `ffn` describes.
pub open spec fn shape_of(config: &ModelConfig, ffn: FfnType) -> MoeShape {
    match ffn {
        FfnType::MoE { num_experts, expert_intermediate_size, .. } => MoeShape {
            experts: num_experts,
            inter: expert_intermediate_size,
            hidden: config.hidden_size,
        },
        _ => MoeShape { experts: 0, inter: 0, hidden: config.hidden_size },
    }
}

// ---- shared expert ----

/// A matrix from the archive where it is packed as one, else from the raw set.
pub open spec fn matrix_load(
    src: &Sources,
    prefix: Seq<char>,
    name: MoeName,
    out_dim: usize,
    in_dim: usize,
    cached: bool,
) -> MatrixLoad {
    MatrixLoad { name, out_dim, in_dim, packed: src.packed_matrix(name.full(prefix)), cached }
}

/// Width of the shared expert: the configured one, or that of the routed experts.
pub open spec fn shared_width(configured: usize, inter: usize) -> usize {
    if configured == 0 {
        inter
    } else {
        configured
    }
}

/// A matrix can be had: packed as one in the archive, or from the raw set.
pub open spec fn matrix_held(src: &Sources, prefix: Seq<char>, name: MoeName) -> bool {
    src.packed_matrix(name.full(prefix)) || src.in_raw(name.full(prefix))
}

/// The shared expert: up and down are required, a gate matrix is not. What is there
/// must be a matrix, looked at in the order gate, up, down.
pub open spec fn shared_of(
    src: &Sources,
    prefix: Seq<char>,
    num_shared: usize,
    width: usize,
    hidden: usize,
    cached: bool,
) -> Result<Option<SharedLoad>, Seq<char>> {
    let find = |part: ExpertPart|
        names::first_held(src, Place::Either, prefix, load::shared_names(part));
    if num_shared == 0 {
        Ok(None)
    } else {
        match find(ExpertPart::Up) {
            None => Err(MoeName::SharedMlp { part: ExpertPart::Up }.full(prefix)),
            Some(up) => match find(ExpertPart::Down) {
                None => Err(MoeName::SharedMlp { part: ExpertPart::Down }.full(prefix)),
                Some(down) => {
                    let gate = find(ExpertPart::Gate);
                    if gate is Some && !matrix_held(src, prefix, gate->0) {
                        Err(gate->0.full(prefix))
                    } else if !matrix_held(src, prefix, up) {
                        Err(up.full(prefix))
                    } else if !matrix_held(src, prefix, down) {
                        Err(down.full(prefix))
                    } else {
                        Ok(
                            Some(
                                SharedLoad {
                                    gate: match gate {
                                        Some(g) => Some(
                                            matrix_load(src, prefix, g, width, hidden, cached),
                                        ),
                                        None => None,
                                    },
                                    up: matrix_load(src, prefix, up, width, hidden, cached),
                                    down: matrix_load(src, prefix, down, hidden, width, cached),
                                },
                            ),
                        )
                    }
                },
            },
        }
    }
}

fn shared_found(src: &Sources, prefix: &str, part: ExpertPart) -> (r: Option<MoeName>)
    ensures
        r == names::first_held(src, Place::Either, prefix@, load::shared_names(part)),
{
    let mut v: Vec<MoeName> = Vec::new();
    v.push(MoeName::SharedMlp { part });
    v.push(MoeName::SharedBare { part });
    assert(v@ =~= load::shared_names(part));
    first_found(src, Place::Either, prefix, &v)
}

fn matrix_load_exec(
    src: &Sources,
    prefix: &str,
    name: MoeName,
    out_dim: usize,
    in_dim: usize,
    cached: bool,
) -> (r: Result<MatrixLoad, ModelError>)
    ensures
        r is Ok <==> matrix_held(src, prefix@, name),
        r matches Ok(l) ==> l == matrix_load(src, prefix@, name, out_dim, in_dim, cached),
        r matches Err(e) ==> e.is_missing(name.full(prefix@)),
{
    let full = name.text(prefix);
    let packed = src.has_packed_matrix(full.as_str());
    if packed || src.find(Place::Raw, full.as_str()) {
        Ok(MatrixLoad { name, out_dim, in_dim, packed, cached })
    } else {
        Err(ModelError::MissingWeight(full))
    }
}

/// Plans the shared expert.
pub fn plan_shared(
    src: &Sources,
    prefix: &str,
    num_shared: usize,
    width: usize,
    hidden: usize,
    cached: bool,
) -> (r: Result<Option<SharedLoad>, ModelError>)
    ensures
        ({
            let want = shared_of(src, prefix@, num_shared, width, hidden, cached);
            &&& r is Err <==> want is Err
            &&& r matches Err(e) ==> e.is_missing(want->Err_0)
            &&& r matches Ok(l) ==> l == want->Ok_0
        }),
{
    if num_shared == 0 {
        return Ok(None);
    }
    let up = match shared_found(src, prefix, ExpertPart::Up) {
        Some(n) => n,
        None => {
            return Err(
                ModelError::MissingWeight(
                    MoeName::SharedMlp { part: ExpertPart::Up }.text(prefix),
                ),
            );
        },
    };
    let down = match shared_found(src, prefix, ExpertPart::Down) {
        Some(n) => n,
        None => {
            return Err(
                ModelError::MissingWeight(
                    MoeName::SharedMlp { part: ExpertPart::Down }.text(prefix),
                ),
            );
        },
    };
    let gate = match shared_found(src, prefix, ExpertPart::Gate) {
        Some(g) => match matrix_load_exec(src, prefix, g, width, hidden, cached) {
            Ok(l) => Some(l),
            Err(e) => {
                return Err(e);
            },
        },
        None => None,
    };
    let up = match matrix_load_exec(src, prefix, up, width, hidden, cached) {
        Ok(l) => l,
        Err(e) => {
            return Err(e);
        },
    };
    let down = match matrix_load_exec(src, prefix, down, hidden, width, cached) {
        Ok(l) => l,
        Err(e) => {
            return Err(e);
        },
    };
    Ok(Some(SharedLoad { gate, up, down }))
}

// ---- router bias ----

/// The correction bias: from the archive only where it has the expected size.
pub open spec fn bias_of(src: &Sources, prefix: Seq<char>, experts: usize) -> Result<
    Option<BiasLoad>,
    Seq<char>,
> {
    match names::first_held(src, Place::Either, prefix, load::bias_names()) {
        None => Ok(None),
        Some(name) => {
            let full = name.full(prefix);
            if src.packed_info(full) matches Some(info) && info.data_bytes == experts * 4 {
                Ok(Some(BiasLoad { name, from_packed: true }))
            } else if src.in_raw(full) {
                Ok(Some(BiasLoad { name, from_packed: false }))
            } else {
                Err(full)
            }
        },
    }
}

/// Plans the router's correction bias.
pub fn plan_bias(src: &Sources, prefix: &str, experts: usize) -> (r: Result<
    Option<BiasLoad>,
    ModelError,
>)
    requires
        experts * 4 <= usize::MAX,
    ensures
        ({
            let want = bias_of(src, prefix@, experts);
            &&& r is Err <==> want is Err
            &&& r matches Err(e) ==> e.is_missing(want->Err_0)
            &&& r matches Ok(l) ==> l == want->Ok_0
        }),
{
    let mut v: Vec<MoeName> = Vec::new();
    v.push(MoeName::BareGateBias);
    v.push(MoeName::MlpGateBias);
    assert(v@ =~= load::bias_names());
    let name = match first_found(src, Place::Either, prefix, &v) {
        None => {
            return Ok(None);
        },
        Some(n) => n,
    };
    let full = name.text(prefix);
    match src.packed_entry(full.as_str()) {
        Some(info) => {
            if info.data_bytes == experts * 4 {
                return Ok(Some(BiasLoad { name, from_packed: true }));
            }
        },
        None => {},
    }
    if src.find(Place::Raw, full.as_str()) {
        Ok(Some(BiasLoad { name, from_packed: false }))
    } else {
        Err(ModelError::MissingWeight(full))
    }
}

// ---- latent projections ----

/// A latent projection: from the archive first, a view of it where it is resident
/// from `arena_start` on; then from the raw set; absent in both, none.
pub open spec fn latent_of(
    src: &Sources,
    prefix: Seq<char>,
    name: MoeName,
    arena_start: Option<u64>,
) -> Result<Option<LatentLoad>, Seq<char>> {
    let full = name.full(prefix);
    match src.packed_info(full) {
        Some(info) => match info.format {
            None => Err(full + ": not a linear bqnt format"@),
            Some(format) => Ok(
                Some(
                    LatentLoad::Packed {
                        format,
                        out_dim: info.out_features,
                        in_dim: info.in_features,
                        bytes: info.data_bytes,
                        at: match arena_start {
                            Some(start) => Some((info.data_offset - start) as u64),
                            None => None,
                        },
                    },
                ),
            ),
        },
        None => match src.raw.lookup(full) {
            Some(d) => Ok(Some(LatentLoad::Raw { out_dim: d.rows, in_dim: d.cols })),
            None => Ok(None),
        },
    }
}

/// Plans a latent projection.
pub fn load_latent_proj(src: &Sources, prefix: &str, name: MoeName, arena_start: Option<u64>) -> (r:
    Result<Option<LatentLoad>, ModelError>)
    requires
        arena_start matches Some(start) ==> (src.packed_info(name.full(prefix@)) matches Some(info)
            ==> start <= info.data_offset),
    ensures
        ({
            let want = latent_of(src, prefix@, name, arena_start);
            &&& r is Err <==> want is Err
            &&& r matches Err(e) ==> e.is_invalid(want->Err_0)
            &&& r matches Ok(l) ==> l == want->Ok_0
        }),
{
    let full = name.text(prefix);
    match src.packed_entry(full.as_str()) {
        Some(info) => match info.format {
            None => {
                Err(
                    ModelError::InvalidConfig(
                        joined(full.as_str(), ": not a linear bqnt format"),
                    ),
                )
            },
            Some(format) => {
                let at = match arena_start {
                    Some(start) => Some(info.data_offset - start),
                    None => None,
                };
                Ok(
                    Some(
                        LatentLoad::Packed {
                            format,
                            out_dim: info.out_features,
                            in_dim: info.in_features,
                            bytes: info.data_bytes,
                            at,
                        },
                    ),
                )
            },
        },
        None => match src.raw_entry(full.as_str()) {
            Some(d) => Ok(Some(LatentLoad::Raw { out_dim: d.rows, in_dim: d.cols })),
            None => Ok(None),
        },
    }
}

// ---- the layer ----

/// The router gate's name.
pub open spec fn router_of(src: &Sources, prefix: Seq<char>) -> Option<MoeName> {
    names::first_held(src, Place::Either, prefix, load::router_names())
}

/// Joining per-expert tensors, where it comes to that, meets tensors of one size.
pub open spec fn loadable(
    src: &Sources,
    prefix: Seq<char>,
    shape: MoeShape,
    skip_experts: bool,
    cached: bool,
) -> bool {
    !skip_experts && router_of(src, prefix) is Some ==> {
        let gated = load::gated(src, prefix);
        &&& !gated && load::fused_source(src, prefix, MoeName::FusedGateUp, 0, 0, cached) is None
            ==> load::each_ready(src, prefix, ExpertPart::Up, shape.experts as nat)
        &&& load::gate_up_of(src, prefix, shape, gated, cached) is Ok && load::fused_source(
            src,
            prefix,
            MoeName::FusedDown,
            0,
            0,
            cached,
        ) is None ==> load::each_ready(src, prefix, ExpertPart::Down, shape.experts as nat)
    }
}

/// Gate and up source of a layer that may leave its experts out.
pub open spec fn layer_gate_up(
    src: &Sources,
    prefix: Seq<char>,
    shape: MoeShape,
    skip_experts: bool,
    cached: bool,
) -> Result<(ExpertSource, Seq<HostPiece>), Seq<char>> {
    if skip_experts {
        Ok((ExpertSource::Skipped, Seq::empty()))
    } else {
        load::gate_up_of(src, prefix, shape, load::gated(src, prefix), cached)
    }
}

/// Down source of a layer that may leave its experts out.
pub open spec fn layer_down(
    src: &Sources,
    prefix: Seq<char>,
    shape: MoeShape,
    skip_experts: bool,
    cached: bool,
) -> Result<(ExpertSource, Seq<HostPiece>), Seq<char>> {
    if skip_experts {
        Ok((ExpertSource::Skipped, Seq::empty()))
    } else {
        load::down_of(src, prefix, shape, load::gated(src, prefix), cached)
    }
}

/// The shared expert of the layer that `ffn` describes.
pub open spec fn layer_shared(
    src: &Sources,
    prefix: Seq<char>,
    config: &ModelConfig,
    ffn: FfnType,
    cached: bool,
) -> Result<Option<SharedLoad>, Seq<char>> {
    match ffn {
        FfnType::MoE {
            num_shared,
            shared_intermediate_size,
            expert_intermediate_size,
            ..
        } => shared_of(
            src,
            prefix,
            num_shared,
            shared_width(shared_intermediate_size, expert_intermediate_size),
            config.hidden_size,
            cached,
        ),
        _ => Ok(None),
    }
}

/// The first thing that goes wrong while planning the layer.
pub open spec fn layer_fault(
    src: &Sources,
    prefix: Seq<char>,
    config: &ModelConfig,
    ffn: FfnType,
    skip_experts: bool,
    cached: bool,
) -> Option<Fault> {
    let shape = shape_of(config, ffn);
    let gate_up = layer_gate_up(src, prefix, shape, skip_experts, cached);
    let down = layer_down(src, prefix, shape, skip_experts, cached);
    let shared = layer_shared(src, prefix, config, ffn, cached);
    let bias = bias_of(src, prefix, shape.experts);
    let fc1 = latent_of(src, prefix, MoeName::LatentIn, None);
    let fc2 = latent_of(src, prefix, MoeName::LatentOut, None);
    if router_of(src, prefix) is None {
        Some(Fault::Missing(prefix + "mlp.gate.weight (or variants)"@))
    } else if gate_up is Err {
        Some(Fault::Missing(gate_up->Err_0))
    } else if down is Err {
        Some(Fault::Missing(down->Err_0))
    } else if shared is Err {
        Some(Fault::Missing(shared->Err_0))
    } else if bias is Err {
        Some(Fault::Missing(bias->Err_0))
    } else if fc1 is Err {
        Some(Fault::Invalid(fc1->Err_0))
    } else if fc2 is Err {
        Some(Fault::Invalid(fc2->Err_0))
    } else {
        None
    }
}

/// What the plan holds when nothing goes wrong.
pub open spec fn is_layer_plan(
    p: &MoeLoadPlan,
    src: &Sources,
    prefix: Seq<char>,
    config: &ModelConfig,
    ffn: FfnType,
    skip_experts: bool,
    cached: bool,
) -> bool {
    let shape = shape_of(config, ffn);
    let gate_up = layer_gate_up(src, prefix, shape, skip_experts, cached)->Ok_0;
    let down = layer_down(src, prefix, shape, skip_experts, cached)->Ok_0;
    &&& p.gate == (VectorLoad {
        name: router_of(src, prefix)->0,
        len: (shape.experts * shape.hidden) as usize,
        packed_first: src.packed is Some,
    })
    &&& p.has_gate_proj == load::gated(src, prefix)
    &&& p.expert_gate_up.source == gate_up.0
    &&& p.expert_gate_up.pieces@ == gate_up.1
    &&& p.expert_gate_up.joins(prefix, shape.experts as nat)
    &&& p.expert_down.source == down.0
    &&& p.expert_down.pieces@ == down.1
    &&& p.expert_down.joins(prefix, shape.experts as nat)
    &&& p.shared_expert == layer_shared(src, prefix, config, ffn, cached)->Ok_0
    &&& p.shared_expert_gate == (if src.holds(
        Place::Either,
        MoeName::SharedExpertGate.full(prefix),
    ) {
        Some(
            VectorLoad {
                name: MoeName::SharedExpertGate,
                len: shape.hidden,
                packed_first: src.packed is Some,
            },
        )
    } else {
        None
    })
    &&& p.score_bias == bias_of(src, prefix, shape.experts)->Ok_0
    &&& p.fc1_latent_proj == latent_of(src, prefix, MoeName::LatentIn, None)->Ok_0
    &&& p.fc2_latent_proj == latent_of(src, prefix, MoeName::LatentOut, None)->Ok_0
}

fn router_found(src: &Sources, prefix: &str) -> (r: Option<MoeName>)
    ensures
        r == router_of(src, prefix@),
{
    let mut v: Vec<MoeName> = Vec::new();
    v.push(MoeName::MlpGate);
    v.push(MoeName::BareGate);
    v.push(MoeName::BlockSparseGate);
    v.push(MoeName::MlpRouter);
    assert(v@ =~= load::router_names());
    first_found(src, Place::Either, prefix, &v)
}

fn gated_exec(src: &Sources, prefix: &str) -> (r: bool)
    ensures
        r == load::gated(src, prefix@),
{
    let fused = MoeName::FusedGateUp.text(prefix);
    if src.find(Place::Either, fused.as_str()) {
        return true;
    }
    let part = ExpertPart::Gate;
    let mut v: Vec<MoeName> = Vec::new();
    v.push(MoeName::Expert { scheme: ExpertScheme::Mlp, part, expert: 0 });
    v.push(MoeName::Expert { scheme: ExpertScheme::Bare, part, expert: 0 });
    v.push(MoeName::Expert { scheme: ExpertScheme::BlockSparse, part, expert: 0 });
    assert(v@ =~= load::first_gate_names());
    first_found(src, Place::Either, prefix, &v).is_some()
}

fn skipped() -> (r: ExpertLoad)
    ensures
        r.source == ExpertSource::Skipped,
        r.pieces@ == Seq::<HostPiece>::empty(),
        r.joined@ == Seq::<PackedPiece>::empty(),
{
    let pieces: Vec<HostPiece> = Vec::new();
    let joined: Vec<PackedPiece> = Vec::new();
    assert(pieces@ =~= Seq::empty());
    assert(joined@ =~= Seq::empty());
    ExpertLoad { source: ExpertSource::Skipped, pieces, joined }
}

/// Plans an expert layer. With `skip_experts` the experts' matrices are left out;
/// with `cached` converted matrices are also written to the archive.
pub fn load_moe_weights_inner(
    src: &Sources,
    prefix: &str,
    config: &ModelConfig,
    ffn: FfnType,
    skip_experts: bool,
    cached: bool,
) -> (r: Result<MoeLoadPlan, ModelError>)
    requires
        ffn.is_moe(),
        shape_of(config, ffn).fits(),
        loadable(src, prefix@, shape_of(config, ffn), skip_experts, cached),
    ensures
        ({
            let fault = layer_fault(src, prefix@, config, ffn, skip_experts, cached);
            &&& r is Err <==> fault is Some
            &&& r matches Err(e) ==> e.reports(fault->0)
            &&& r matches Ok(p) ==> is_layer_plan(
                &p,
                src,
                prefix@,
                config,
                ffn,
                skip_experts,
                cached,
            )
        }),
{
    let (num_shared, configured, shape) = match ffn {
        FfnType::MoE {
            num_experts,
            expert_intermediate_size,
            num_shared,
            shared_intermediate_size,
            ..
        } => (
            num_shared,
            shared_intermediate_size,
            MoeShape {
                experts: num_experts,
                inter: expert_intermediate_size,
                hidden: config.hidden_size,
            },
        ),
        _ => (0, 0, MoeShape { experts: 0, inter: 0, hidden: config.hidden_size }),
    };
    assert(shape == shape_of(config, ffn));
    let router = match router_found(src, prefix) {
        Some(n) => n,
        None => {
            return Err(
                ModelError::MissingWeight(joined(prefix, "mlp.gate.weight (or variants)")),
            );
        },
    };
    let packed_first = src.packed.is_some();
    let gate = VectorLoad { name: router, len: shape.experts * shape.hidden, packed_first };
    let has_gate_proj = gated_exec(src, prefix);
    let expert_gate_up = if skip_experts {
        skipped()
    } else {
        match plan_gate_up(src, prefix, shape, has_gate_proj, cached) {
            Ok(l) => l,
            Err(e) => {
                return Err(e);
            },
        }
    };
    let expert_down = if skip_experts {
        skipped()
    } else {
        match plan_down(src, prefix, shape, has_gate_proj, cached) {
            Ok(l) => l,
            Err(e) => {
                return Err(e);
            },
        }
    };
    let width: usize = if configured == 0 {
        shape.inter
    } else {
        configured
    };
    let shared_expert = match plan_shared(src, prefix, num_shared, width, shape.hidden, cached) {
        Ok(l) => l,
        Err(e) => {
            return Err(e);
        },
    };
    let shared_gate_name = MoeName::SharedExpertGate.text(prefix);
    let shared_expert_gate = if src.find(Place::Either, shared_gate_name.as_str()) {
        Some(VectorLoad { name: MoeName::SharedExpertGate, len: shape.hidden, packed_first })
    } else {
        None
    };
    let score_bias = match plan_bias(src, prefix, shape.experts) {
        Ok(l) => l,
        Err(e) => {
            return Err(e);
        },
    };
    let fc1_latent_proj = match load_latent_proj(src, prefix, MoeName::LatentIn, None) {
        Ok(l) => l,
        Err(e) => {
            return Err(e);
        },
    };
    let fc2_latent_proj = match load_latent_proj(src, prefix, MoeName::LatentOut, None) {
        Ok(l) => l,
        Err(e) => {
            return Err(e);
        },
    };
    Ok(
        MoeLoadPlan {
            gate,
            has_gate_proj,
            expert_gate_up,
            expert_down,
            shared_expert,
            shared_expert_gate,
            score_bias,
            fc1_latent_proj,
            fc2_latent_proj,
        },
    )
}

/// Plans an expert layer with all its experts.
pub fn load_moe_weights(src: &Sources, prefix: &str, config: &ModelConfig, ffn: FfnType) -> (r:
    Result<MoeLoadPlan, ModelError>)
    requires
        ffn.is_moe(),
        shape_of(config, ffn).fits(),
        loadable(src, prefix@, shape_of(config, ffn), false, false),
    ensures
        ({
            let fault = layer_fault(src, prefix@, config, ffn, false, false);
            &&& r is Err <==> fault is Some
            &&& r matches Err(e) ==> e.reports(fault->0)
            &&& r matches Ok(p) ==> is_layer_plan(&p, src, prefix@, config, ffn, false, false)
        }),
{
    load_moe_weights_inner(src, prefix, config, ffn, false, false)
}

/// Plans an expert layer with all its experts, writing converted matrices to the
/// archive.
pub fn load_moe_weights_cached(src: &Sources, prefix: &str, config: &ModelConfig, ffn: FfnType) -> (r:
    Result<MoeLoadPlan, ModelError>)
    requires
        ffn.is_moe(),
        shape_of(config, ffn).fits(),
        loadable(src, prefix@, shape_of(config, ffn), false, true),
    ensures
        ({
            let fault = layer_fault(src, prefix@, config, ffn, false, true);
            &&& r is Err <==> fault is Some
            &&& r matches Err(e) ==> e.reports(fault->0)
            &&& r matches Ok(p) ==> is_layer_plan(&p, src, prefix@, config, ffn, false, true)
        }),
{
    load_moe_weights_inner(src, prefix, config, ffn, false, true)
}

/// Plans an expert layer without its experts.
pub fn load_moe_weights_lite(src: &Sources, prefix: &str, config: &ModelConfig, ffn: FfnType) -> (r:
    Result<MoeLoadPlan, ModelError>)
    requires
        ffn.is_moe(),
        shape_of(config, ffn).fits(),
    ensures
        ({
            let fault = layer_fault(src, prefix@, config, ffn, true, false);
            &&& r is Err <==> fault is Some
            &&& r matches Err(e) ==> e.reports(fault->0)
            &&& r matches Ok(p) ==> is_layer_plan(&p, src, prefix@, config, ffn, true, false)
        }),
{
    load_moe_weights_inner(src, prefix, config, ffn, true, false)
}

/// Plans an expert layer without its experts, writing converted matrices to the
/// archive.
pub fn load_moe_weights_lite_cached(
    src: &Sources,
    prefix: &str,
    config: &ModelConfig,
    ffn: FfnType,
) -> (r: Result<MoeLoadPlan, ModelError>)
    requires
        ffn.is_moe(),
        shape_of(config, ffn).fits(),
    ensures
        ({
            let fault = layer_fault(src, prefix@, config, ffn, true, true);
            &&& r is Err <==> fault is Some
            &&& r matches Err(e) ==> e.reports(fault->0)
            &&& r matches Ok(p) ==> is_layer_plan(&p, src, prefix@, config, ffn, true, true)
        }),
{
    load_moe_weights_inner(src, prefix, config, ffn, true, true)
}

/// Input width of the experts: what the loaded matrix has, where it has one, else
/// the latent size, else the hidden size.
pub fn gate_up_in_dim(loaded: Option<usize>, config: &ModelConfig) -> (r: usize)
    ensures
        r == (if loaded is Some && loaded->0 > 0 {
            loaded->0
        } else if config.moe_latent_size is Some {
            config.moe_latent_size->0
        } else {
            config.hidden_size
        }),
{
    match loaded {
        Some(d) if d > 0 => d,
        _ => match config.moe_latent_size {
            Some(l) => l,
            None => config.hidden_size,
        },
    }
}

/// A plan without experts fails only for reasons that also fail the full plan.
pub proof fn law_lite_fails_less(
    src: &Sources,
    prefix: Seq<char>,
    config: &ModelConfig,
    ffn: FfnType,
    cached: bool,
)
    ensures
        layer_fault(src, prefix, config, ffn, true, cached) is Some ==> layer_fault(
            src,
            prefix,
            config,
            ffn,
            false,
            cached,
        ) is Some,
{
}

/// The shared expert's matrices are its own, each in its role: up and gate lead from the
/// hidden width into the expert, down leads back.
pub proof fn law_shared_roles(
    src: &Sources,
    prefix: Seq<char>,
    num_shared: usize,
    width: usize,
    hidden: usize,
    cached: bool,
)
    ensures
        shared_of(src, prefix, num_shared, width, hidden, cached) matches Ok(found) ==> {
            &&& found is None <==> num_shared == 0
            &&& found matches Some(s) ==> {
                &&& role_of(s.up.name) == Some(ExpertPart::Up)
                &&& role_of(s.down.name) == Some(ExpertPart::Down)
                &&& s.gate matches Some(g) ==> role_of(g.name) == Some(ExpertPart::Gate)
                    && g.in_dim == hidden && g.out_dim == width
                &&& (s.up.in_dim, s.up.out_dim) == (hidden, width)
                &&& (s.down.in_dim, s.down.out_dim) == (width, hidden)
                &&& matrix_held(src, prefix, s.up.name)
                &&& matrix_held(src, prefix, s.down.name)
            }
        },
{
    lemma_shared_role(src, prefix, ExpertPart::Up);
    lemma_shared_role(src, prefix, ExpertPart::Down);
    lemma_shared_role(src, prefix, ExpertPart::Gate);
}

/// The role of a shared expert's matrix.
pub open spec fn role_of(name: MoeName) -> Option<ExpertPart> {
    match name {
        MoeName::SharedMlp { part } => Some(part),
        MoeName::SharedBare { part } => Some(part),
        _ => None,
    }
}

proof fn lemma_shared_role(src: &Sources, prefix: Seq<char>, part: ExpertPart)
    ensures
        names::first_held(src, Place::Either, prefix, load::shared_names(part)) matches Some(n)
            ==> role_of(n) == Some(part),
{
    let list = load::shared_names(part);
    names::law_first_held(src, Place::Either, prefix, list);
    if let Some(n) = names::first_held(src, Place::Either, prefix, list) {
        let k = choose|k: int| 0 <= k < list.len() && list[k] == n;
        assert(list[k] == n);
    }
}

} // verus!
