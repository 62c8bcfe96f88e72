//! Load plan of an expert layer: which tensor is read from where.

use vstd::prelude::*;
use vstd::string::*;
use crate::arith;
use crate::error::ModelError;
use crate::moe_weights::names;
use crate::moe_weights::names::{first_found, ExpertPart, ExpertScheme, MoeName};
use crate::ops::WeightFormat;
use crate::tensors::{Place, Sources};
use crate::text;
use crate::text::{decimal_text, joined};

verus! {

/// Sizes of an expert layer.
#[derive(Clone, Copy, Debug, PartialEq, Eq, Structural)]
pub struct MoeShape {
    pub experts: usize,
    pub inter: usize,
    pub hidden: usize,
}

impl MoeShape {
    /// The largest buffer an expert layer asks for is addressable.
    pub open spec fn fits(self) -> bool {
        &&& self.experts * self.hidden <= usize::MAX
        &&& self.experts * 4 <= usize::MAX
        &&& self.inter * self.hidden <= usize::MAX
        &&& 2 * self.inter <= usize::MAX
        &&& 2 * self.inter * self.hidden <= usize::MAX
        &&& self.experts * 2 <= usize::MAX
        &&& self.experts * 2 * self.inter <= usize::MAX
        &&& self.experts * self.inter <= usize::MAX
        &&& self.experts * (2 * self.inter * self.hidden) <= usize::MAX
        &&& self.experts * (self.inter * self.hidden) <= usize::MAX
    }
}

/// A tensor of one vector, read as it is. With `packed_first` the archive is tried
/// before the raw set.
#[derive(Clone, Copy, Debug, PartialEq, Eq, Structural)]
pub struct VectorLoad {
    pub name: MoeName,
    pub len: usize,
    pub packed_first: bool,
}

/// A matrix: taken from the archive if `packed`, else converted from the raw set.
#[derive(Clone, Copy, Debug, PartialEq, Eq, Structural)]
pub struct MatrixLoad {
    pub name: MoeName,
    pub out_dim: usize,
    pub in_dim: usize,
    pub packed: bool,
    /// Write the converted bytes to the archive under construction.
    pub cached: bool,
}

/// Where the matrices of all experts come from.
#[derive(Clone, Copy, Debug, PartialEq, Eq, Structural)]
pub enum ExpertSource {
    /// Left out: each GPU reads its own experts later.
    Skipped,
    /// One packed tensor.
    Packed { name: MoeName },
    /// One packed tensor per expert, joined end to end.
    PackedEach {
        first: MoeName,
        bytes: usize,
        format: WeightFormat,
        out_dim: usize,
        in_dim: usize,
    },
    /// One raw tensor.
    Raw { name: MoeName, out_dim: usize, in_dim: usize, cached: bool },
    /// Raw tensors of the experts, gathered on the host. The format is the one
    /// that applies to `format_of`.
    Gathered {
        elements: usize,
        out_dim: usize,
        in_dim: usize,
        format_of: MoeName,
        cache_name: MoeName,
        cached: bool,
    },
}

/// A raw tensor's place in the gathered buffer.
#[derive(Clone, Copy, Debug, PartialEq, Eq, Structural)]
pub struct HostPiece {
    pub name: MoeName,
    pub offset: usize,
    pub elements: usize,
}

/// A packed tensor's place in the joined buffer, in bytes.
#[derive(Debug)]
pub struct PackedPiece {
    pub name: String,
    pub offset: usize,
    pub bytes: usize,
}

/// Source of all experts' matrices, with the pieces where they are gathered or
/// joined.
pub struct ExpertLoad {
    pub source: ExpertSource,
    pub pieces: Vec<HostPiece>,
    pub joined: Vec<PackedPiece>,
}

impl ExpertLoad {
    /// Packed tensors are joined exactly where the source says so.
    pub open spec fn joins(&self, prefix: Seq<char>, n: nat) -> bool {
        match self.source {
            ExpertSource::PackedEach { first, bytes, .. } => end_to_end(
                self.joined@,
                prefix,
                first,
                bytes as nat,
                n,
            ),
            _ => self.joined@.len() == 0,
        }
    }
}

#[derive(Clone, Copy, Debug, PartialEq, Eq, Structural)]
pub struct SharedLoad {
    pub gate: Option<MatrixLoad>,
    pub up: MatrixLoad,
    pub down: MatrixLoad,
}

/// The router's correction bias.
#[derive(Clone, Copy, Debug, PartialEq, Eq, Structural)]
pub struct BiasLoad {
    pub name: MoeName,
    pub from_packed: bool,
}

/// A projection between the hidden and the latent space.
#[derive(Clone, Copy, Debug, PartialEq, Eq, Structural)]
pub enum LatentLoad {
    /// `at` is the offset in the resident archive, where there is one.
    Packed {
        format: WeightFormat,
        out_dim: usize,
        in_dim: usize,
        bytes: usize,
        at: Option<u64>,
    },
    Raw { out_dim: usize, in_dim: usize },
}

/// Everything an expert layer loads.
pub struct MoeLoadPlan {
    pub gate: VectorLoad,
    pub has_gate_proj: bool,
    pub expert_gate_up: ExpertLoad,
    pub expert_down: ExpertLoad,
    pub shared_expert: Option<SharedLoad>,
    pub shared_expert_gate: Option<VectorLoad>,
    pub score_bias: Option<BiasLoad>,
    pub fc1_latent_proj: Option<LatentLoad>,
    pub fc2_latent_proj: Option<LatentLoad>,
}

// ---- candidate names, in the order they are tried ----

pub open spec fn router_names() -> Seq<MoeName> {
    seq![MoeName::MlpGate, MoeName::BareGate, MoeName::BlockSparseGate, MoeName::MlpRouter]
}

pub open spec fn first_gate_names() -> Seq<MoeName> {
    seq![
        names::expert(ExpertScheme::Mlp, ExpertPart::Gate, 0),
        names::expert(ExpertScheme::Bare, ExpertPart::Gate, 0),
        names::expert(ExpertScheme::BlockSparse, ExpertPart::Gate, 0),
    ]
}

/// Raw candidates for one matrix of expert `e`.
pub open spec fn part_names(part: ExpertPart, e: int) -> Seq<MoeName> {
    match part {
        ExpertPart::Gate => seq![
            names::expert(ExpertScheme::Mlp, part, e),
            names::expert(ExpertScheme::BlockSparse, part, e),
        ],
        ExpertPart::Up => seq![
            names::expert(ExpertScheme::Bare, part, e),
            names::expert(ExpertScheme::Mlp, part, e),
        ],
        ExpertPart::Down => seq![
            names::expert(ExpertScheme::Mlp, part, e),
            names::expert(ExpertScheme::Bare, part, e),
            names::expert(ExpertScheme::BlockSparse, part, e),
        ],
    }
}

/// Archive candidates for expert 0's matrix.
pub open spec fn packed_names(part: ExpertPart) -> Seq<MoeName> {
    match part {
        ExpertPart::Down => seq![
            names::expert(ExpertScheme::Mlp, part, 0),
            names::expert(ExpertScheme::Bare, part, 0),
        ],
        _ => seq![
            names::expert(ExpertScheme::Bare, part, 0),
            names::expert(ExpertScheme::Mlp, part, 0),
        ],
    }
}

pub open spec fn shared_names(part: ExpertPart) -> Seq<MoeName> {
    seq![MoeName::SharedMlp { part }, MoeName::SharedBare { part }]
}

pub open spec fn bias_names() -> Seq<MoeName> {
    seq![MoeName::BareGateBias, MoeName::MlpGateBias]
}

fn expert_exec(scheme: ExpertScheme, part: ExpertPart, e: usize) -> (r: MoeName)
    ensures
        r == names::expert(scheme, part, e as int),
{
    MoeName::Expert { scheme, part, expert: e }
}

fn pair(a: MoeName, b: MoeName) -> (r: Vec<MoeName>)
    ensures
        r@ == seq![a, b],
{
    let mut r: Vec<MoeName> = Vec::new();
    r.push(a);
    r.push(b);
    assert(r@ =~= seq![a, b]);
    r
}

fn part_names_exec(part: ExpertPart, e: usize) -> (r: Vec<MoeName>)
    ensures
        r@ == part_names(part, e as int),
{
    let mlp = expert_exec(ExpertScheme::Mlp, part, e);
    let bare = expert_exec(ExpertScheme::Bare, part, e);
    let block = expert_exec(ExpertScheme::BlockSparse, part, e);
    let mut r = match part {
        ExpertPart::Gate => pair(mlp, block),
        ExpertPart::Up => pair(bare, mlp),
        ExpertPart::Down => pair(mlp, bare),
    };
    if part == ExpertPart::Down {
        r.push(block);
    }
    assert(r@ =~= part_names(part, e as int));
    r
}

fn packed_names_exec(part: ExpertPart) -> (r: Vec<MoeName>)
    ensures
        r@ == packed_names(part),
{
    let mlp = expert_exec(ExpertScheme::Mlp, part, 0);
    let bare = expert_exec(ExpertScheme::Bare, part, 0);
    match part {
        ExpertPart::Down => pair(mlp, bare),
        _ => pair(bare, mlp),
    }
}

// ---- per-expert packed tensors ----

/// Expert `e`'s tensor, given expert 0's of the same layer.
pub open spec fn expert_entry(first: MoeName, e: int) -> MoeName {
    match first {
        MoeName::Expert { scheme, part, .. } => MoeName::Expert { scheme, part, expert: e as usize },
        other => other,
    }
}

/// The first `n` experts' tensors are in the archive.
pub open spec fn all_packed(src: &Sources, prefix: Seq<char>, first: MoeName, n: int) -> bool {
    forall|e: int| 0 <= e < n ==> src.in_packed((#[trigger] expert_entry(first, e)).full(prefix))
}

/// Every expert's tensor up to the first missing one has expert 0's size.
pub open spec fn sizes_agree(src: &Sources, prefix: Seq<char>, first: MoeName, n: int) -> bool {
    forall|e: int|
        0 <= e < n && all_packed(src, prefix, first, e + 1) ==> src.packed_info(
            (#[trigger] expert_entry(first, e)).full(prefix),
        )->0.data_bytes == src.packed_info(first.full(prefix))->0.data_bytes
}

/// The joined tensor is addressable.
pub open spec fn joined_fits(src: &Sources, prefix: Seq<char>, first: MoeName, n: nat) -> bool {
    src.packed_info(first.full(prefix)) matches Some(info) ==> {
        &&& n * info.data_bytes <= usize::MAX
        &&& n * info.out_features <= usize::MAX
    }
}

/// The tensors of `n` experts one after the other, expert `e` at `e * bytes`.
pub open spec fn end_to_end(
    pieces: Seq<PackedPiece>,
    prefix: Seq<char>,
    first: MoeName,
    bytes: nat,
    n: nat,
) -> bool {
    &&& pieces.len() == n
    &&& forall|e: int|
        0 <= e < n ==> {
            let p = #[trigger] pieces[e];
            &&& p.name@ == expert_entry(first, e).full(prefix)
            &&& p.offset == e * bytes
            &&& p.bytes == bytes
        }
}

/// The experts' tensors joined, where all are present and packed as matrices.
pub open spec fn each_source(src: &Sources, prefix: Seq<char>, first: MoeName, n: nat) -> Option<
    ExpertSource,
> {
    match src.packed_info(first.full(prefix)) {
        Some(info) => match info.format {
            Some(format) => if all_packed(src, prefix, first, n as int) {
                Some(
                    ExpertSource::PackedEach {
                        first,
                        bytes: info.data_bytes,
                        format,
                        out_dim: (n * info.out_features) as usize,
                        in_dim: info.in_features,
                    },
                )
            } else {
                None
            },
            None => None,
        },
        None => None,
    }
}

/// Expert `e`'s tensor, given expert 0's of the same layer.
pub fn expert_entry_name(first: MoeName, e: usize) -> (r: MoeName)
    ensures
        r == expert_entry(first, e as int),
{
    match first {
        MoeName::Expert { scheme, part, .. } => MoeName::Expert { scheme, part, expert: e },
        other => other,
    }
}

/// Joins the experts' packed tensors end to end, if all of them are there.
pub fn concat_per_expert_bqnt(src: &Sources, prefix: &str, first: MoeName, num_experts: usize) -> (r:
    Option<ExpertLoad>)
    requires
        sizes_agree(src, prefix@, first, num_experts as int),
        joined_fits(src, prefix@, first, num_experts as nat),
    ensures
        r is Some <==> each_source(src, prefix@, first, num_experts as nat) is Some,
        r matches Some(l) ==> {
            &&& l.source == each_source(src, prefix@, first, num_experts as nat)->0
            &&& l.pieces@ == Seq::<HostPiece>::empty()
            &&& l.joins(prefix@, num_experts as nat)
        },
{
    let first_name = first.text(prefix);
    let info = match src.packed_entry(first_name.as_str()) {
        Some(info) => info,
        None => {
            return None;
        },
    };
    let bytes: usize = info.data_bytes;
    let mut joined: Vec<PackedPiece> = Vec::new();
    let mut e: usize = 0;
    while e < num_experts
        invariant
            e <= num_experts,
            src.packed_info(first.full(prefix@)) == Some(info),
            all_packed(src, prefix@, first, e as int),
            bytes == info.data_bytes,
            num_experts * bytes <= usize::MAX,
            end_to_end(joined@, prefix@, first, bytes as nat, e as nat),
        decreases num_experts - e,
    {
        let name = expert_entry_name(first, e).text(prefix);
        if src.packed_entry(name.as_str()).is_none() {
            assert(!src.in_packed(expert_entry(first, e as int).full(prefix@)));
            return None;
        }
        proof {
            arith::lemma_scaled_index(e as int, num_experts as int, bytes as int);
        }
        joined.push(PackedPiece { name, offset: e * bytes, bytes });
        e += 1;
    }
    match info.format {
        Some(format) => {
            let source = ExpertSource::PackedEach {
                first,
                bytes,
                format,
                out_dim: num_experts * info.out_features,
                in_dim: info.in_features,
            };
            let pieces: Vec<HostPiece> = Vec::new();
            assert(pieces@ =~= Seq::empty());
            Some(ExpertLoad { source, pieces, joined })
        },
        None => None,
    }
}

// ---- gathered raw tensors ----

/// The complaint about a missing matrix of expert `e`.
pub open spec fn missing_part(prefix: Seq<char>, part: ExpertPart, e: int) -> Seq<char> {
    prefix + "experts."@ + text::decimal(e as nat) + match part {
        ExpertPart::Gate => ".gate_proj.weight (or variants)"@,
        ExpertPart::Up => ".up_proj.weight"@,
        ExpertPart::Down => ".down_proj (or variants)"@,
    }
}

/// The up matrix that goes with a gate matrix.
pub open spec fn up_of(gate: MoeName) -> MoeName {
    match gate {
        MoeName::Expert { scheme, expert, .. } => MoeName::Expert {
            scheme,
            part: ExpertPart::Up,
            expert,
        },
        other => other,
    }
}

/// Gate and up matrices of the first `n` experts, alternating.
pub open spec fn gated_pieces(src: &Sources, prefix: Seq<char>, shape: MoeShape, n: int) -> Result<
    Seq<HostPiece>,
    Seq<char>,
>
    decreases n,
{
    if n <= 0 {
        Ok(Seq::empty())
    } else {
        match gated_pieces(src, prefix, shape, n - 1) {
            Err(t) => Err(t),
            Ok(done) => match names::first_held(
                src,
                Place::Raw,
                prefix,
                part_names(ExpertPart::Gate, n - 1),
            ) {
                None => Err(missing_part(prefix, ExpertPart::Gate, n - 1)),
                Some(gate) => if src.in_raw(up_of(gate).full(prefix)) {
                    let half = shape.inter * shape.hidden;
                    let base = (n - 1) * (2 * shape.inter * shape.hidden);
                    Ok(
                        done.push(
                            HostPiece { name: gate, offset: base as usize, elements: half as usize },
                        ).push(
                            HostPiece {
                                name: up_of(gate),
                                offset: (base + half) as usize,
                                elements: half as usize,
                            },
                        ),
                    )
                } else {
                    Err(up_of(gate).full(prefix))
                },
            },
        }
    }
}

/// One matrix of each of the first `n` experts.
pub open spec fn single_pieces(
    src: &Sources,
    prefix: Seq<char>,
    shape: MoeShape,
    part: ExpertPart,
    n: int,
) -> Result<Seq<HostPiece>, Seq<char>>
    decreases n,
{
    if n <= 0 {
        Ok(Seq::empty())
    } else {
        match single_pieces(src, prefix, shape, part, n - 1) {
            Err(t) => Err(t),
            Ok(done) => match names::first_held(src, Place::Raw, prefix, part_names(part, n - 1)) {
                None => Err(missing_part(prefix, part, n - 1)),
                Some(name) => {
                    let each = shape.inter * shape.hidden;
                    Ok(
                        done.push(
                            HostPiece {
                                name,
                                offset: ((n - 1) * each) as usize,
                                elements: each as usize,
                            },
                        ),
                    )
                },
            },
        }
    }
}

proof fn lemma_gated_err(src: &Sources, prefix: Seq<char>, shape: MoeShape, n: int, m: int)
    requires
        n <= m,
        gated_pieces(src, prefix, shape, n) is Err,
    ensures
        gated_pieces(src, prefix, shape, m) == gated_pieces(src, prefix, shape, n),
    decreases m - n,
{
    if n < m {
        lemma_gated_err(src, prefix, shape, n, m - 1);
    }
}

proof fn lemma_single_err(
    src: &Sources,
    prefix: Seq<char>,
    shape: MoeShape,
    part: ExpertPart,
    n: int,
    m: int,
)
    requires
        n <= m,
        single_pieces(src, prefix, shape, part, n) is Err,
    ensures
        single_pieces(src, prefix, shape, part, m) == single_pieces(src, prefix, shape, part, n),
    decreases m - n,
{
    if n < m {
        lemma_single_err(src, prefix, shape, part, n, m - 1);
    }
}

fn missing_part_error(prefix: &str, part: ExpertPart, e: usize) -> (r: ModelError)
    ensures
        r.is_missing(missing_part(prefix@, part, e as int)),
{
    let mut t: String = joined(prefix, "experts.");
    t.append(decimal_text(e).as_str());
    t.append(
        match part {
            ExpertPart::Gate => ".gate_proj.weight (or variants)",
            ExpertPart::Up => ".up_proj.weight",
            ExpertPart::Down => ".down_proj (or variants)",
        },
    );
    ModelError::MissingWeight(t)
}

fn gather_gated(src: &Sources, prefix: &str, shape: MoeShape) -> (r: Result<
    Vec<HostPiece>,
    ModelError,
>)
    requires
        shape.fits(),
    ensures
        ({
            let want = gated_pieces(src, prefix@, shape, shape.experts as int);
            &&& r is Err <==> want is Err
            &&& r matches Err(e) ==> e.is_missing(want->Err_0)
            &&& r matches Ok(p) ==> p@ == want->Ok_0
        }),
{
    let n: usize = shape.experts;
    let half: usize = shape.inter * shape.hidden;
    let each: usize = 2 * shape.inter * shape.hidden;
    assert(2 * shape.inter * shape.hidden == 2 * (shape.inter * shape.hidden)) by (nonlinear_arith);
    let mut pieces: Vec<HostPiece> = Vec::new();
    let mut e: usize = 0;
    while e < n
        invariant
            e <= n,
            n == shape.experts,
            half == shape.inter * shape.hidden,
            each == 2 * shape.inter * shape.hidden,
            each == 2 * half,
            n * each <= usize::MAX,
            gated_pieces(src, prefix@, shape, e as int) == Ok::<Seq<HostPiece>, Seq<char>>(
                pieces@,
            ),
        decreases n - e,
    {
        let found = first_found(src, Place::Raw, prefix, &part_names_exec(ExpertPart::Gate, e));
        match found {
            None => {
                proof {
                    lemma_gated_err(src, prefix@, shape, e + 1, n as int);
                }
                return Err(missing_part_error(prefix, ExpertPart::Gate, e));
            },
            Some(gate) => {
                let up = match gate {
                    MoeName::Expert { scheme, expert, .. } => MoeName::Expert {
                        scheme,
                        part: ExpertPart::Up,
                        expert,
                    },
                    other => other,
                };
                assert(up == up_of(gate));
                let up_name = up.text(prefix);
                if !src.find(Place::Raw, up_name.as_str()) {
                    proof {
                        lemma_gated_err(src, prefix@, shape, e + 1, n as int);
                    }
                    return Err(ModelError::MissingWeight(up_name));
                }
                proof {
                    arith::lemma_scaled_index(e as int, n as int, each as int);
                }
                pieces.push(HostPiece { name: gate, offset: e * each, elements: half });
                pieces.push(HostPiece { name: up, offset: e * each + half, elements: half });
            },
        }
        e += 1;
    }
    Ok(pieces)
}

fn gather_single(src: &Sources, prefix: &str, shape: MoeShape, part: ExpertPart) -> (r: Result<
    Vec<HostPiece>,
    ModelError,
>)
    requires
        shape.fits(),
    ensures
        ({
            let want = single_pieces(src, prefix@, shape, part, shape.experts as int);
            &&& r is Err <==> want is Err
            &&& r matches Err(e) ==> e.is_missing(want->Err_0)
            &&& r matches Ok(p) ==> p@ == want->Ok_0
        }),
{
    let n: usize = shape.experts;
    let each: usize = shape.inter * shape.hidden;
    let mut pieces: Vec<HostPiece> = Vec::new();
    let mut e: usize = 0;
    while e < n
        invariant
            e <= n,
            n == shape.experts,
            each == shape.inter * shape.hidden,
            n * each <= usize::MAX,
            single_pieces(src, prefix@, shape, part, e as int) == Ok::<Seq<HostPiece>, Seq<char>>(
                pieces@,
            ),
        decreases n - e,
    {
        match first_found(src, Place::Raw, prefix, &part_names_exec(part, e)) {
            None => {
                proof {
                    lemma_single_err(src, prefix@, shape, part, e + 1, n as int);
                }
                return Err(missing_part_error(prefix, part, e));
            },
            Some(name) => {
                proof {
                    arith::lemma_scaled_index(e as int, n as int, each as int);
                }
                pieces.push(HostPiece { name, offset: e * each, elements: each });
            },
        }
        e += 1;
    }
    Ok(pieces)
}

// ---- sources of the experts' matrices ----

/// The experts have a gate matrix besides the up matrix.
pub open spec fn gated(src: &Sources, prefix: Seq<char>) -> bool {
    src.holds(Place::Either, MoeName::FusedGateUp.full(prefix)) || names::first_held(
        src,
        Place::Either,
        prefix,
        first_gate_names(),
    ) is Some
}

/// The tensor whose format the gathered experts take.
pub open spec fn format_name(gated: bool) -> MoeName {
    if gated {
        names::expert(ExpertScheme::Mlp, ExpertPart::Gate, 0)
    } else {
        names::expert(ExpertScheme::Bare, ExpertPart::Up, 0)
    }
}

/// Joining the experts' packed tensors, where expert 0 has one.
pub open spec fn packed_each(src: &Sources, prefix: Seq<char>, part: ExpertPart, n: nat) -> Option<
    ExpertSource,
> {
    match names::first_held(src, Place::Packed, prefix, packed_names(part)) {
        Some(first) => each_source(src, prefix, first, n),
        None => None,
    }
}

/// Joining meets tensors of one size only and an addressable result.
pub open spec fn each_ready(src: &Sources, prefix: Seq<char>, part: ExpertPart, n: nat) -> bool {
    names::first_held(src, Place::Packed, prefix, packed_names(part)) matches Some(first) ==> {
        &&& sizes_agree(src, prefix, first, n as int)
        &&& joined_fits(src, prefix, first, n)
    }
}

/// The fused tensor, if it can be used as it is.
pub open spec fn fused_source(
    src: &Sources,
    prefix: Seq<char>,
    name: MoeName,
    out_dim: usize,
    in_dim: usize,
    cached: bool,
) -> Option<ExpertSource> {
    if src.packed_matrix(name.full(prefix)) {
        Some(ExpertSource::Packed { name })
    } else if src.in_raw(name.full(prefix)) {
        Some(ExpertSource::Raw { name, out_dim, in_dim, cached })
    } else {
        None
    }
}

/// Where gate and up matrices come from: the fused tensor, then gathered gate and
/// up tensors; without gates, joined packed tensors, then gathered up tensors.
pub open spec fn gate_up_of(
    src: &Sources,
    prefix: Seq<char>,
    shape: MoeShape,
    gated: bool,
    cached: bool,
) -> Result<(ExpertSource, Seq<HostPiece>), Seq<char>> {
    let n = shape.experts;
    let both = (n * 2 * shape.inter) as usize;
    match fused_source(src, prefix, MoeName::FusedGateUp, both, shape.hidden, cached) {
        Some(s) => Ok((s, Seq::empty())),
        None => if gated {
            match gated_pieces(src, prefix, shape, n as int) {
                Err(t) => Err(t),
                Ok(p) => Ok(
                    (
                        ExpertSource::Gathered {
                            elements: (n * (2 * shape.inter * shape.hidden)) as usize,
                            out_dim: both,
                            in_dim: shape.hidden,
                            format_of: format_name(true),
                            cache_name: MoeName::FusedGateUp,
                            cached,
                        },
                        p,
                    ),
                ),
            }
        } else {
            match packed_each(src, prefix, ExpertPart::Up, n as nat) {
                Some(s) => Ok((s, Seq::empty())),
                None => match single_pieces(src, prefix, shape, ExpertPart::Up, n as int) {
                    Err(t) => Err(t),
                    Ok(p) => Ok(
                        (
                            ExpertSource::Gathered {
                                elements: (n * (shape.inter * shape.hidden)) as usize,
                                out_dim: (n * shape.inter) as usize,
                                in_dim: shape.hidden,
                                format_of: format_name(false),
                                cache_name: MoeName::FusedGateUp,
                                cached,
                            },
                            p,
                        ),
                    ),
                },
            }
        },
    }
}

/// Where down matrices come from: the fused tensor, then joined packed tensors,
/// then gathered tensors.
pub open spec fn down_of(
    src: &Sources,
    prefix: Seq<char>,
    shape: MoeShape,
    gated: bool,
    cached: bool,
) -> Result<(ExpertSource, Seq<HostPiece>), Seq<char>> {
    let n = shape.experts;
    let rows = (n * shape.hidden) as usize;
    match fused_source(src, prefix, MoeName::FusedDown, rows, shape.inter, cached) {
        Some(s) => Ok((s, Seq::empty())),
        None => match packed_each(src, prefix, ExpertPart::Down, n as nat) {
            Some(s) => Ok((s, Seq::empty())),
            None => match single_pieces(src, prefix, shape, ExpertPart::Down, n as int) {
                Err(t) => Err(t),
                Ok(p) => Ok(
                    (
                        ExpertSource::Gathered {
                            elements: (n * (shape.inter * shape.hidden)) as usize,
                            out_dim: rows,
                            in_dim: shape.inter,
                            format_of: format_name(gated),
                            cache_name: MoeName::FusedDown,
                            cached,
                        },
                        p,
                    ),
                ),
            },
        },
    }
}

fn fused_source_exec(
    src: &Sources,
    prefix: &str,
    name: MoeName,
    out_dim: usize,
    in_dim: usize,
    cached: bool,
) -> (r: Option<ExpertSource>)
    ensures
        r == fused_source(src, prefix@, name, out_dim, in_dim, cached),
{
    let full = name.text(prefix);
    if src.has_packed_matrix(full.as_str()) {
        Some(ExpertSource::Packed { name })
    } else if src.find(Place::Raw, full.as_str()) {
        Some(ExpertSource::Raw { name, out_dim, in_dim, cached })
    } else {
        None
    }
}

/// A load that takes a tensor as it is.
fn whole(source: ExpertSource) -> (r: ExpertLoad)
    requires
        !(source is PackedEach),
    ensures
        r.source == source,
        r.pieces@ == Seq::<HostPiece>::empty(),
        r.joined@ == Seq::<PackedPiece>::empty(),
{
    let pieces: Vec<HostPiece> = Vec::new();
    let joined: Vec<PackedPiece> = Vec::new();
    assert(pieces@ =~= Seq::empty());
    assert(joined@ =~= Seq::empty());
    ExpertLoad { source, pieces, joined }
}

fn packed_each_exec(src: &Sources, prefix: &str, part: ExpertPart, n: usize) -> (r: Option<
    ExpertLoad,
>)
    requires
        each_ready(src, prefix@, part, n as nat),
    ensures
        r is Some <==> packed_each(src, prefix@, part, n as nat) is Some,
        r matches Some(l) ==> {
            &&& l.source == packed_each(src, prefix@, part, n as nat)->0
            &&& l.pieces@ == Seq::<HostPiece>::empty()
            &&& l.joins(prefix@, n as nat)
        },
{
    match first_found(src, Place::Packed, prefix, &packed_names_exec(part)) {
        Some(first) => concat_per_expert_bqnt(src, prefix, first, n),
        None => None,
    }
}

/// Plans gate and up matrices.
pub fn plan_gate_up(src: &Sources, prefix: &str, shape: MoeShape, gated: bool, cached: bool) -> (r:
    Result<ExpertLoad, ModelError>)
    requires
        shape.fits(),
        !gated && fused_source(src, prefix@, MoeName::FusedGateUp, 0, 0, cached) is None
            ==> each_ready(src, prefix@, ExpertPart::Up, shape.experts as nat),
    ensures
        ({
            let want = gate_up_of(src, prefix@, shape, gated, cached);
            &&& r is Err <==> want is Err
            &&& r matches Err(e) ==> e.is_missing(want->Err_0)
            &&& r matches Ok(l) ==> l.source == want->Ok_0.0 && l.pieces@ == want->Ok_0.1
                && l.joins(prefix@, shape.experts as nat)
        }),
{
    let n: usize = shape.experts;
    let both: usize = n * 2 * shape.inter;
    match fused_source_exec(src, prefix, MoeName::FusedGateUp, both, shape.hidden, cached) {
        Some(source) => {
            return Ok(whole(source));
        },
        None => {},
    }
    if gated {
        match gather_gated(src, prefix, shape) {
            Err(e) => Err(e),
            Ok(pieces) => Ok(
                ExpertLoad {
                    source: ExpertSource::Gathered {
                        elements: n * (2 * shape.inter * shape.hidden),
                        out_dim: both,
                        in_dim: shape.hidden,
                        format_of: expert_exec(ExpertScheme::Mlp, ExpertPart::Gate, 0),
                        cache_name: MoeName::FusedGateUp,
                        cached,
                    },
                    pieces,
                    joined: Vec::new(),
                },
            ),
        }
    } else {
        match packed_each_exec(src, prefix, ExpertPart::Up, n) {
            Some(load) => {
                return Ok(load);
            },
            None => {},
        }
        match gather_single(src, prefix, shape, ExpertPart::Up) {
            Err(e) => Err(e),
            Ok(pieces) => Ok(
                ExpertLoad {
                    source: ExpertSource::Gathered {
                        elements: n * (shape.inter * shape.hidden),
                        out_dim: n * shape.inter,
                        in_dim: shape.hidden,
                        format_of: expert_exec(ExpertScheme::Bare, ExpertPart::Up, 0),
                        cache_name: MoeName::FusedGateUp,
                        cached,
                    },
                    pieces,
                    joined: Vec::new(),
                },
            ),
        }
    }
}

/// Plans down matrices.
pub fn plan_down(src: &Sources, prefix: &str, shape: MoeShape, gated: bool, cached: bool) -> (r:
    Result<ExpertLoad, ModelError>)
    requires
        shape.fits(),
        fused_source(src, prefix@, MoeName::FusedDown, 0, 0, cached) is None ==> each_ready(
            src,
            prefix@,
            ExpertPart::Down,
            shape.experts as nat,
        ),
    ensures
        ({
            let want = down_of(src, prefix@, shape, gated, cached);
            &&& r is Err <==> want is Err
            &&& r matches Err(e) ==> e.is_missing(want->Err_0)
            &&& r matches Ok(l) ==> l.source == want->Ok_0.0 && l.pieces@ == want->Ok_0.1
                && l.joins(prefix@, shape.experts as nat)
        }),
{
    let n: usize = shape.experts;
    let rows: usize = n * shape.hidden;
    let usable = match fused_source_exec(
        src,
        prefix,
        MoeName::FusedDown,
        rows,
        shape.inter,
        cached,
    ) {
        Some(s) => Some(whole(s)),
        None => packed_each_exec(src, prefix, ExpertPart::Down, n),
    };
    match usable {
        Some(load) => {
            return Ok(load);
        },
        None => {},
    }
    match gather_single(src, prefix, shape, ExpertPart::Down) {
        Err(e) => Err(e),
        Ok(pieces) => {
            let format_of = if gated {
                expert_exec(ExpertScheme::Mlp, ExpertPart::Gate, 0)
            } else {
                expert_exec(ExpertScheme::Bare, ExpertPart::Up, 0)
            };
            Ok(
                ExpertLoad {
                    source: ExpertSource::Gathered {
                        elements: n * (shape.inter * shape.hidden),
                        out_dim: rows,
                        in_dim: shape.inter,
                        format_of,
                        cache_name: MoeName::FusedDown,
                        cached,
                    },
                    pieces,
                    joined: Vec::new(),
                },
            )
        },
    }
}

/// Gathered pieces follow one another without gap or overlap: piece `i` begins
/// where `i` equal pieces end.
pub proof fn law_pieces_tile(
    src: &Sources,
    prefix: Seq<char>,
    shape: MoeShape,
    part: ExpertPart,
    n: int,
    i: int,
)
    requires
        shape.fits(),
        0 <= n <= shape.experts,
    ensures
        ({
            let each = shape.inter * shape.hidden;
            &&& gated_pieces(src, prefix, shape, n) matches Ok(p) ==> {
                &&& p.len() == 2 * n
                &&& 0 <= i < p.len() ==> p[i].offset == i * each && p[i].elements == each
            }
            &&& single_pieces(src, prefix, shape, part, n) matches Ok(p) ==> {
                &&& p.len() == n
                &&& 0 <= i < p.len() ==> p[i].offset == i * each && p[i].elements == each
            }
        }),
    decreases n,
{
    if n > 0 {
        law_pieces_tile(src, prefix, shape, part, n - 1, i);
        let each = shape.inter * shape.hidden;
        let k = n - 1;
        assert(2 * shape.inter * shape.hidden == 2 * each) by (nonlinear_arith)
            requires
                each == shape.inter * shape.hidden,
        ;
        assert(k * (2 * each) == (2 * k) * each && (2 * k + 1) * each == (2 * k) * each + each)
            by (nonlinear_arith);
        arith::lemma_scaled_index(k, shape.experts as int, 2 * each);
        arith::lemma_scaled_index(k, shape.experts as int, each);
    }
}

/// What was found for a matrix of an expert is a name of that matrix of that expert.
proof fn lemma_found_part(src: &Sources, prefix: Seq<char>, part: ExpertPart, e: int)
    ensures
        names::first_held(src, Place::Raw, prefix, part_names(part, e)) matches Some(n) ==> {
            &&& n matches MoeName::Expert { part: q, expert, .. } && q == part && expert
                == e as usize
            &&& src.in_raw(n.full(prefix))
        },
{
    let list = part_names(part, e);
    names::law_first_held(src, Place::Raw, prefix, list);
    if let Some(n) = names::first_held(src, Place::Raw, prefix, list) {
        let k = choose|k: int| 0 <= k < list.len() && list[k] == n;
        assert(list[k] is Expert);
    }
}

/// Gathered pieces are those of the experts in order: of a gated expert first its matrix of
/// gates and then, under the same naming, its up matrix.
pub proof fn law_pieces_in_order(
    src: &Sources,
    prefix: Seq<char>,
    shape: MoeShape,
    part: ExpertPart,
    n: int,
    e: int,
)
    requires
        0 <= e < n <= usize::MAX,
    ensures
        gated_pieces(src, prefix, shape, n) matches Ok(p) ==> {
            &&& p.len() == 2 * n
            &&& p[2 * e].name matches MoeName::Expert { scheme, part: a, expert } && {
                &&& a == ExpertPart::Gate
                &&& expert == e
                &&& p[2 * e + 1].name == MoeName::Expert { scheme, part: ExpertPart::Up, expert }
                &&& src.in_raw(p[2 * e].name.full(prefix))
                &&& src.in_raw(p[2 * e + 1].name.full(prefix))
            }
        },
        single_pieces(src, prefix, shape, part, n) matches Ok(p) ==> {
            &&& p.len() == n
            &&& p[e].name matches MoeName::Expert { part: a, expert, .. } && a == part && expert
                == e
            &&& src.in_raw(p[e].name.full(prefix))
        },
    decreases n,
{
    lemma_found_part(src, prefix, ExpertPart::Gate, n - 1);
    lemma_found_part(src, prefix, part, n - 1);
    if e < n - 1 {
        law_pieces_in_order(src, prefix, shape, part, n - 1, e);
    } else if n > 1 {
        law_pieces_in_order(src, prefix, shape, part, n - 1, 0);
    }
}

/// Joined tensors are those of the experts in order, each starting where the previous one
/// ends.
pub proof fn law_joined_in_order(
    pieces: Seq<PackedPiece>,
    prefix: Seq<char>,
    first: MoeName,
    bytes: nat,
    n: nat,
    e: int,
)
    requires
        end_to_end(pieces, prefix, first, bytes, n),
        first is Expert,
        0 <= e < n <= usize::MAX,
    ensures
        e == 0 ==> pieces[e].offset == 0,
        e + 1 < n ==> pieces[e].offset + pieces[e].bytes == pieces[e + 1].offset,
        exists|q: MoeName|
            q is Expert && q->expert == e && q->scheme == first->scheme && q->Expert_part
                == first->Expert_part && pieces[e].name@ == #[trigger] q.full(prefix),
{
    let q = expert_entry(first, e);
    assert(pieces[e].name@ == q.full(prefix));
    assert((e + 1) * bytes == e * bytes + bytes) by (nonlinear_arith);
    assert(0 * bytes == 0);
    if e + 1 < n {
        assert(pieces[e + 1].offset == (e + 1) * bytes);
    }
}

} // verus!
