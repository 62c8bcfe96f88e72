//! Load plan of one layer: the tensors it wants, and where each is read from.

use vstd::prelude::*;
use vstd::string::*;
use crate::error::ModelError;
use crate::tensors::{Place, Sources};
use crate::text::joined;

verus! {

/// A tensor of a layer, relative to the layer's prefix.
#[derive(Clone, Copy, Debug, PartialEq, Eq, Structural)]
pub enum LayerName {
    InputLayernorm,
    Norm,
    PostAttentionLayernorm,
    MixerInProj,
    MixerConvWeight,
    MixerConvBias,
    MixerDtBias,
    MixerALog,
    MixerD,
    MixerNorm,
    MixerOutProj,
    MixerGate,
    AttnQ,
    AttnK,
    AttnV,
    AttnO,
    MixerQ,
    MixerK,
    MixerV,
    MixerO,
    QNorm,
    KNorm,
    MlpGate,
    MlpUp,
    MlpDown,
    LinearConv,
    LinearQkv,
    LinearA,
    LinearB,
    LinearZ,
    LinearALog,
    LinearDtBias,
    LinearNorm,
    LinearOut,
}

impl LayerName {
    pub open spec fn tail(self) -> Seq<char> {
        match self {
            LayerName::InputLayernorm => "input_layernorm.weight"@,
            LayerName::Norm => "norm.weight"@,
            LayerName::PostAttentionLayernorm => "post_attention_layernorm.weight"@,
            LayerName::MixerInProj => "mixer.in_proj.weight"@,
            LayerName::MixerConvWeight => "mixer.conv1d.weight"@,
            LayerName::MixerConvBias => "mixer.conv1d.bias"@,
            LayerName::MixerDtBias => "mixer.dt_bias"@,
            LayerName::MixerALog => "mixer.A_log"@,
            LayerName::MixerD => "mixer.D"@,
            LayerName::MixerNorm => "mixer.norm.weight"@,
            LayerName::MixerOutProj => "mixer.out_proj.weight"@,
            LayerName::MixerGate => "mixer.gate.weight"@,
            LayerName::AttnQ => "self_attn.q_proj.weight"@,
            LayerName::AttnK => "self_attn.k_proj.weight"@,
            LayerName::AttnV => "self_attn.v_proj.weight"@,
            LayerName::AttnO => "self_attn.o_proj.weight"@,
            LayerName::MixerQ => "mixer.q_proj.weight"@,
            LayerName::MixerK => "mixer.k_proj.weight"@,
            LayerName::MixerV => "mixer.v_proj.weight"@,
            LayerName::MixerO => "mixer.o_proj.weight"@,
            LayerName::QNorm => "self_attn.q_norm.weight"@,
            LayerName::KNorm => "self_attn.k_norm.weight"@,
            LayerName::MlpGate => "mlp.gate_proj.weight"@,
            LayerName::MlpUp => "mlp.up_proj.weight"@,
            LayerName::MlpDown => "mlp.down_proj.weight"@,
            LayerName::LinearConv => "linear_attn.conv1d.weight"@,
            LayerName::LinearQkv => "linear_attn.in_proj_qkv.weight"@,
            LayerName::LinearA => "linear_attn.in_proj_a.weight"@,
            LayerName::LinearB => "linear_attn.in_proj_b.weight"@,
            LayerName::LinearZ => "linear_attn.in_proj_z.weight"@,
            LayerName::LinearALog => "linear_attn.A_log"@,
            LayerName::LinearDtBias => "linear_attn.dt_bias"@,
            LayerName::LinearNorm => "linear_attn.norm.weight"@,
            LayerName::LinearOut => "linear_attn.out_proj.weight"@,
        }
    }

    /// The full name.
    pub open spec fn full(self, prefix: Seq<char>) -> Seq<char> {
        prefix + self.tail()
    }

    fn tail_text(self) -> (r: &'static str)
        ensures
            r@ == self.tail(),
    {
        match self {
            LayerName::InputLayernorm => "input_layernorm.weight",
            LayerName::Norm => "norm.weight",
            LayerName::PostAttentionLayernorm => "post_attention_layernorm.weight",
            LayerName::MixerInProj => "mixer.in_proj.weight",
            LayerName::MixerConvWeight => "mixer.conv1d.weight",
            LayerName::MixerConvBias => "mixer.conv1d.bias",
            LayerName::MixerDtBias => "mixer.dt_bias",
            LayerName::MixerALog => "mixer.A_log",
            LayerName::MixerD => "mixer.D",
            LayerName::MixerNorm => "mixer.norm.weight",
            LayerName::MixerOutProj => "mixer.out_proj.weight",
            LayerName::MixerGate => "mixer.gate.weight",
            LayerName::AttnQ => "self_attn.q_proj.weight",
            LayerName::AttnK => "self_attn.k_proj.weight",
            LayerName::AttnV => "self_attn.v_proj.weight",
            LayerName::AttnO => "self_attn.o_proj.weight",
            LayerName::MixerQ => "mixer.q_proj.weight",
            LayerName::MixerK => "mixer.k_proj.weight",
            LayerName::MixerV => "mixer.v_proj.weight",
            LayerName::MixerO => "mixer.o_proj.weight",
            LayerName::QNorm => "self_attn.q_norm.weight",
            LayerName::KNorm => "self_attn.k_norm.weight",
            LayerName::MlpGate => "mlp.gate_proj.weight",
            LayerName::MlpUp => "mlp.up_proj.weight",
            LayerName::MlpDown => "mlp.down_proj.weight",
            LayerName::LinearConv => "linear_attn.conv1d.weight",
            LayerName::LinearQkv => "linear_attn.in_proj_qkv.weight",
            LayerName::LinearA => "linear_attn.in_proj_a.weight",
            LayerName::LinearB => "linear_attn.in_proj_b.weight",
            LayerName::LinearZ => "linear_attn.in_proj_z.weight",
            LayerName::LinearALog => "linear_attn.A_log",
            LayerName::LinearDtBias => "linear_attn.dt_bias",
            LayerName::LinearNorm => "linear_attn.norm.weight",
            LayerName::LinearOut => "linear_attn.out_proj.weight",
        }
    }

    /// The full name.
    pub fn text(self, prefix: &str) -> (r: String)
        ensures
            r@ == self.full(prefix@),
    {
        joined(prefix, self.tail_text())
    }
}

/// How a tensor is stored once loaded.
#[derive(Clone, Copy, Debug, PartialEq, Eq, Structural)]
pub enum TensorKind {
    /// A vector of half-width elements.
    Half { len: usize },
    /// A vector of half-width elements, as long as its source says.
    HalfMeasured,
    /// A vector of full-width elements.
    Full { len: usize },
    /// A projection.
    Matrix { out_dim: usize, in_dim: usize },
    /// Convolution weights: half-width elements, taken from the archive only at
    /// the expected size.
    Conv { elements: usize },
}

/// A tensor a layer wants, under one of up to two names.
#[derive(Clone, Copy, Debug, PartialEq, Eq, Structural)]
pub struct Want {
    pub name: LayerName,
    pub other: Option<LayerName>,
    pub kind: TensorKind,
    pub optional: bool,
}

/// Where a tensor is read from.
#[derive(Clone, Copy, Debug, PartialEq, Eq, Structural)]
pub enum TensorSource {
    /// The archive.
    Packed,
    /// The archive, or the raw set where the archived tensor has another size or format
    /// than asked for.
    PackedFirst,
    /// The raw set.
    Raw,
    /// The raw set, and written to the archive under construction.
    RawCached,
    /// The archive, since the raw set lacks it; the layer was to stay unquantized
    /// if it is excluded from quantization.
    PackedInstead,
}

/// A tensor and where it is read from.
#[derive(Clone, Copy, Debug, PartialEq, Eq, Structural)]
pub struct TensorLoad {
    pub name: LayerName,
    pub kind: TensorKind,
    pub source: TensorSource,
}

// ---- resolving one tensor ----

/// The name under which a wanted tensor is read; none for an optional tensor that
/// is absent, an error for one that must be there under one of its names.
pub open spec fn chosen_name(src: &Sources, p: Seq<char>, w: Want) -> Result<
    Option<LayerName>,
    Seq<char>,
> {
    if src.holds(Place::Either, w.name.full(p)) {
        Ok(Some(w.name))
    } else if w.other is Some && src.holds(Place::Either, w.other->0.full(p)) {
        Ok(w.other)
    } else if w.optional {
        Ok(None)
    } else {
        Err(w.name.full(p))
    }
}

/// Elements of a measured vector: those of the archive's entry, else half the raw
/// bytes.
pub open spec fn measured(src: &Sources, name: Seq<char>) -> nat {
    match src.packed_info(name) {
        Some(info) => info.out_features as nat * info.in_features as nat,
        None => (src.raw.lookup(name)->0.bytes / 2) as nat,
    }
}

/// What a projection is read from.
pub open spec fn matrix_source(src: &Sources, name: Seq<char>, quantize: bool, caching: bool) -> Option<
    TensorSource,
> {
    if quantize && src.packed_matrix(name) {
        Some(TensorSource::Packed)
    } else if quantize && caching {
        if src.in_raw(name) {
            Some(TensorSource::RawCached)
        } else {
            None
        }
    } else if src.in_raw(name) {
        Some(TensorSource::Raw)
    } else if src.packed_matrix(name) {
        Some(TensorSource::PackedInstead)
    } else {
        None
    }
}

/// What a tensor that was found is read from.
pub open spec fn source_of(
    src: &Sources,
    name: Seq<char>,
    kind: TensorKind,
    quantize: bool,
    caching: bool,
) -> Option<TensorSource> {
    match kind {
        TensorKind::Matrix { .. } => matrix_source(src, name, quantize, caching),
        TensorKind::Conv { elements } => if src.packed_info(name) matches Some(info)
            && info.data_bytes == elements * 2 {
            Some(TensorSource::Packed)
        } else if src.in_raw(name) {
            Some(TensorSource::Raw)
        } else {
            None
        },
        _ => if src.in_packed(name) {
            Some(TensorSource::PackedFirst)
        } else if src.in_raw(name) {
            Some(TensorSource::Raw)
        } else {
            None
        },
    }
}

/// The kind with its length filled in.
pub open spec fn sized(src: &Sources, name: Seq<char>, kind: TensorKind) -> TensorKind {
    match kind {
        TensorKind::HalfMeasured => TensorKind::Half { len: measured(src, name) as usize },
        other => other,
    }
}

/// A wanted tensor resolved.
pub open spec fn resolved(
    src: &Sources,
    p: Seq<char>,
    w: Want,
    quantize: bool,
    caching: bool,
) -> Result<Option<TensorLoad>, Seq<char>> {
    match chosen_name(src, p, w) {
        Err(t) => Err(t),
        Ok(None) => Ok(None),
        Ok(Some(name)) => {
            let full = name.full(p);
            match source_of(src, full, w.kind, quantize, caching) {
                None => Err(full),
                Some(source) => Ok(
                    Some(TensorLoad { name, kind: sized(src, full, w.kind), source }),
                ),
            }
        },
    }
}

/// All wanted tensors, or the first that cannot be had.
pub open spec fn all_resolved(
    src: &Sources,
    p: Seq<char>,
    wants: Seq<Want>,
    quantize: bool,
    caching: bool,
) -> Result<Seq<TensorLoad>, Seq<char>>
    decreases wants.len(),
{
    if wants.len() == 0 {
        Ok(Seq::empty())
    } else {
        match all_resolved(src, p, wants.drop_last(), quantize, caching) {
            Err(t) => Err(t),
            Ok(done) => match resolved(src, p, wants.last(), quantize, caching) {
                Err(t) => Err(t),
                Ok(None) => Ok(done),
                Ok(Some(l)) => Ok(done.push(l)),
            },
        }
    }
}

/// The elements of the archive's entry can be counted.
pub open spec fn countable(src: &Sources, name: Seq<char>) -> bool {
    src.packed_info(name) matches Some(info) ==> info.out_features * info.in_features
        <= usize::MAX
}

/// A tensor is usable at the size its source gives: a measured vector is
/// addressable, and raw convolution weights have the expected size.
pub open spec fn usable(src: &Sources, p: Seq<char>, w: Want) -> bool {
    match w.kind {
        TensorKind::HalfMeasured => {
            &&& countable(src, w.name.full(p))
            &&& w.other matches Some(other) ==> countable(src, other.full(p))
        },
        TensorKind::Conv { elements } => {
            &&& elements * 2 <= usize::MAX
            &&& !(src.packed_info(w.name.full(p)) matches Some(info) && info.data_bytes == elements
                * 2) ==> (src.raw.lookup(w.name.full(p)) matches Some(info) ==> info.bytes
                == elements * 2)
        },
        _ => true,
    }
}

fn choose_name(src: &Sources, p: &str, w: Want) -> (r: Result<Option<LayerName>, ModelError>)
    ensures
        ({
            let want = chosen_name(src, p@, w);
            &&& r is Err <==> want is Err
            &&& r matches Err(e) ==> e.is_missing(want->Err_0)
            &&& r matches Ok(n) ==> n == want->Ok_0
        }),
{
    let first = w.name.text(p);
    if src.find(Place::Either, first.as_str()) {
        return Ok(Some(w.name));
    }
    match w.other {
        Some(other) => {
            let second = other.text(p);
            if src.find(Place::Either, second.as_str()) {
                return Ok(w.other);
            }
        },
        None => {},
    }
    if w.optional {
        Ok(None)
    } else {
        Err(ModelError::MissingWeight(first))
    }
}

/// What a tensor that was found is read from.
pub(crate) fn find_source(
    src: &Sources,
    name: &str,
    kind: TensorKind,
    quantize: bool,
    caching: bool,
) -> (r: Option<TensorSource>)
    requires
        kind matches TensorKind::Conv { elements } ==> elements * 2 <= usize::MAX,
    ensures
        r == source_of(src, name@, kind, quantize, caching),
{
    match kind {
        TensorKind::Matrix { .. } => {
            if quantize {
                if src.has_packed_matrix(name) {
                    return Some(TensorSource::Packed);
                }
                if caching {
                    return if src.find(Place::Raw, name) {
                        Some(TensorSource::RawCached)
                    } else {
                        None
                    };
                }
            }
            if src.find(Place::Raw, name) {
                Some(TensorSource::Raw)
            } else if src.has_packed_matrix(name) {
                Some(TensorSource::PackedInstead)
            } else {
                None
            }
        },
        TensorKind::Conv { elements } => {
            match src.packed_entry(name) {
                Some(info) => {
                    if info.data_bytes == elements * 2 {
                        return Some(TensorSource::Packed);
                    }
                },
                None => {},
            }
            if src.find(Place::Raw, name) {
                Some(TensorSource::Raw)
            } else {
                None
            }
        },
        _ => {
            if src.find(Place::Packed, name) {
                Some(TensorSource::PackedFirst)
            } else if src.find(Place::Raw, name) {
                Some(TensorSource::Raw)
            } else {
                None
            }
        },
    }
}

/// Resolves one wanted tensor.
pub fn resolve(src: &Sources, p: &str, w: Want, quantize: bool, caching: bool) -> (r: Result<
    Option<TensorLoad>,
    ModelError,
>)
    requires
        usable(src, p@, w),
    ensures
        ({
            let want = resolved(src, p@, w, quantize, caching);
            &&& r is Err <==> want is Err
            &&& r matches Err(e) ==> e.is_missing(want->Err_0)
            &&& r matches Ok(l) ==> l == want->Ok_0
        }),
{
    let name = match choose_name(src, p, w) {
        Err(e) => {
            return Err(e);
        },
        Ok(None) => {
            return Ok(None);
        },
        Ok(Some(n)) => n,
    };
    let full = name.text(p);
    let source = match find_source(src, full.as_str(), w.kind, quantize, caching) {
        Some(s) => s,
        None => {
            return Err(ModelError::MissingWeight(full));
        },
    };
    let kind = match w.kind {
        TensorKind::HalfMeasured => {
            assert(name.full(p@) == full@);
            let len: usize = match src.packed_entry(full.as_str()) {
                Some(info) => info.out_features * info.in_features,
                None => match src.raw_entry(full.as_str()) {
                    Some(info) => info.bytes / 2,
                    None => 0,
                },
            };
            TensorKind::Half { len }
        },
        other => other,
    };
    Ok(Some(TensorLoad { name, kind, source }))
}

proof fn lemma_resolved_err(
    src: &Sources,
    p: Seq<char>,
    wants: Seq<Want>,
    quantize: bool,
    caching: bool,
    n: int,
)
    requires
        0 <= n <= wants.len(),
        all_resolved(src, p, wants.take(n), quantize, caching) is Err,
    ensures
        all_resolved(src, p, wants, quantize, caching) == all_resolved(
            src,
            p,
            wants.take(n),
            quantize,
            caching,
        ),
    decreases wants.len() - n,
{
    if n < wants.len() {
        assert(wants.take(n + 1).drop_last() =~= wants.take(n));
        lemma_resolved_err(src, p, wants, quantize, caching, n + 1);
    } else {
        assert(wants.take(n) =~= wants);
    }
}

/// Resolves all wanted tensors in order.
pub fn resolve_all(src: &Sources, p: &str, wants: &Vec<Want>, quantize: bool, caching: bool) -> (r:
    Result<Vec<TensorLoad>, ModelError>)
    requires
        forall|i: int| 0 <= i < wants@.len() ==> usable(src, p@, #[trigger] wants@[i]),
    ensures
        ({
            let want = all_resolved(src, p@, wants@, quantize, caching);
            &&& r is Err <==> want is Err
            &&& r matches Err(e) ==> e.is_missing(want->Err_0)
            &&& r matches Ok(l) ==> l@ == want->Ok_0
        }),
{
    let mut done: Vec<TensorLoad> = Vec::new();
    let mut i: usize = 0;
    assert(wants@.take(0).len() == 0);
    assert(done@ =~= Seq::empty());
    while i < wants.len()
        invariant
            i <= wants@.len(),
            forall|k: int| 0 <= k < wants@.len() ==> usable(src, p@, #[trigger] wants@[k]),
            all_resolved(src, p@, wants@.take(i as int), quantize, caching) == Ok::<
                Seq<TensorLoad>,
                Seq<char>,
            >(done@),
        decreases wants@.len() - i,
    {
        assert(wants@.take(i + 1).drop_last() =~= wants@.take(i as int));
        assert(wants@.take(i + 1).last() == wants@[i as int]);
        match resolve(src, p, wants[i], quantize, caching) {
            Err(e) => {
                proof {
                    lemma_resolved_err(src, p@, wants@, quantize, caching, i + 1);
                }
                return Err(e);
            },
            Ok(Some(l)) => {
                done.push(l);
            },
            Ok(None) => {},
        }
        i += 1;
    }
    assert(wants@.take(i as int) =~= wants@);
    Ok(done)
}

// ---- laws ----

/// The place that a tensor is read from holds it.
pub open spec fn held(src: &Sources, name: Seq<char>, l: TensorLoad) -> bool {
    match l.source {
        TensorSource::Packed => src.in_packed(name),
        TensorSource::PackedFirst => src.in_packed(name),
        TensorSource::PackedInstead => src.packed_matrix(name) && !src.in_raw(name),
        TensorSource::Raw => src.in_raw(name),
        TensorSource::RawCached => src.in_raw(name),
    }
}

/// A tensor is read under a name it goes by, in the shape that is wanted, from a place that
/// has it. A layer that is not quantized reads projections unpacked where it can, and only
/// a quantized layer writes them to an archive.
pub proof fn law_read_where_held(
    src: &Sources,
    p: Seq<char>,
    w: Want,
    quantize: bool,
    caching: bool,
)
    ensures
        resolved(src, p, w, quantize, caching) matches Ok(Some(l)) ==> {
            &&& l.name == w.name || Some(l.name) == w.other
            &&& held(src, l.name.full(p), l)
            &&& w.kind != TensorKind::HalfMeasured ==> l.kind == w.kind
            &&& w.kind == TensorKind::HalfMeasured ==> l.kind is Half
            &&& w.kind is Matrix && !quantize ==> l.source == TensorSource::Raw || l.source
                == TensorSource::PackedInstead
            &&& l.source == TensorSource::RawCached ==> quantize && caching
        },
        resolved(src, p, w, quantize, caching) matches Ok(None) ==> w.optional && !src.holds(
            Place::Either,
            w.name.full(p),
        ),
        resolved(src, p, w, quantize, caching) is Err ==> !(src.in_raw(w.name.full(p))),
{
}

/// Every tensor that must be there is loaded, and nothing that is not wanted.
pub proof fn law_required_loaded(
    src: &Sources,
    p: Seq<char>,
    wants: Seq<Want>,
    quantize: bool,
    caching: bool,
    i: int,
)
    requires
        0 <= i < wants.len(),
    ensures
        all_resolved(src, p, wants, quantize, caching) matches Ok(list) ==> {
            &&& list.len() <= wants.len()
            &&& !wants[i].optional ==> (resolved(src, p, wants[i], quantize, caching) matches Ok(
                Some(l),
            ) && list.contains(l))
            &&& forall|k: int|
                0 <= k < list.len() ==> exists|j: int|
                    0 <= j < wants.len() && resolved(
                        src,
                        p,
                        #[trigger] wants[j],
                        quantize,
                        caching,
                    ) == Ok::<Option<TensorLoad>, Seq<char>>(Some(#[trigger] list[k]))
        },
    decreases wants.len(),
{
    let front = wants.drop_last();
    let last = wants.last();
    if all_resolved(src, p, wants, quantize, caching) is Ok {
        let list = all_resolved(src, p, wants, quantize, caching)->Ok_0;
        let done = all_resolved(src, p, front, quantize, caching)->Ok_0;
        assert(wants[wants.len() - 1] == last);
        if front.len() > 0 {
            let m = if i < front.len() {
                i
            } else {
                0
            };
            law_required_loaded(src, p, front, quantize, caching, m);
            assert(front[m] == wants[m]);
            if i < front.len() && !wants[i].optional {
                let l = resolved(src, p, wants[i], quantize, caching)->Ok_0->0;
                assert(list[done.index_of(l)] == l);
            }
        }
        if i == front.len() && !wants[i].optional {
            assert(list[done.len() as int] == resolved(src, p, last, quantize, caching)->Ok_0->0);
        }
        assert forall|k: int| 0 <= k < list.len() implies exists|j: int|
            0 <= j < wants.len() && resolved(src, p, #[trigger] wants[j], quantize, caching) == Ok::<
                Option<TensorLoad>,
                Seq<char>,
            >(Some(#[trigger] list[k])) by {
            if k < done.len() {
                assert(list[k] == done[k]);
                let j = choose|j: int|
                    0 <= j < front.len() && resolved(
                        src,
                        p,
                        #[trigger] front[j],
                        quantize,
                        caching,
                    ) == Ok::<Option<TensorLoad>, Seq<char>>(Some(done[k]));
                assert(wants[j] == front[j]);
            } else {
                assert(wants[wants.len() - 1] == last);
            }
        }
    }
}

/// The character at `i`, a blank behind the end.
spec fn char_at(t: Seq<char>, i: int) -> char {
    if i < t.len() {
        t[i]
    } else {
        ' '
    }
}

/// What tells the names of a layer apart: the length and a few characters.
spec fn mark(t: Seq<char>) -> (nat, char, char, char, char) {
    (t.len(), char_at(t, 6), char_at(t, 10), char_at(t, 12), char_at(t, 20))
}

spec fn mark_of(n: LayerName) -> (nat, char, char, char, char) {
    match n {
        LayerName::InputLayernorm => (22nat, 'l', 'r', 'o', 'h'),
        LayerName::Norm => (11nat, 'e', 't', ' ', ' '),
        LayerName::PostAttentionLayernorm => (31nat, 't', 't', 'o', 'n'),
        LayerName::MixerInProj => (20nat, 'i', 'r', 'j', ' '),
        LayerName::MixerConvWeight => (19nat, 'c', '1', '.', ' '),
        LayerName::MixerConvBias => (17nat, 'c', '1', '.', ' '),
        LayerName::MixerDtBias => (13nat, 'd', 'i', 's', ' '),
        LayerName::MixerALog => (11nat, 'A', 'g', ' ', ' '),
        LayerName::MixerD => (7nat, 'D', ' ', ' ', ' '),
        LayerName::MixerNorm => (17nat, 'n', '.', 'e', ' '),
        LayerName::MixerOutProj => (21nat, 'o', 'p', 'o', 't'),
        LayerName::MixerGate => (17nat, 'g', '.', 'e', ' '),
        LayerName::AttnQ => (23nat, 't', 'q', 'p', 'g'),
        LayerName::AttnK => (23nat, 't', 'k', 'p', 'g'),
        LayerName::AttnV => (23nat, 't', 'v', 'p', 'g'),
        LayerName::AttnO => (23nat, 't', 'o', 'p', 'g'),
        LayerName::MixerQ => (19nat, 'q', 'o', '.', ' '),
        LayerName::MixerK => (19nat, 'k', 'o', '.', ' '),
        LayerName::MixerV => (19nat, 'v', 'o', '.', ' '),
        LayerName::MixerO => (19nat, 'o', 'o', '.', ' '),
        LayerName::QNorm => (23nat, 't', 'q', 'n', 'g'),
        LayerName::KNorm => (23nat, 't', 'k', 'n', 'g'),
        LayerName::MlpGate => (20nat, 't', 'r', 'j', ' '),
        LayerName::MlpUp => (18nat, '_', 'j', 'w', ' '),
        LayerName::MlpDown => (20nat, 'w', 'r', 'j', ' '),
        LayerName::LinearConv => (25nat, '_', 'n', 'c', 'e'),
        LayerName::LinearQkv => (30nat, '_', 'n', 'i', 'q'),
        LayerName::LinearA => (28nat, '_', 'n', 'i', 'a'),
        LayerName::LinearB => (28nat, '_', 'n', 'i', 'b'),
        LayerName::LinearZ => (28nat, '_', 'n', 'i', 'z'),
        LayerName::LinearALog => (17nat, '_', 'n', 'A', ' '),
        LayerName::LinearDtBias => (19nat, '_', 'n', 'd', ' '),
        LayerName::LinearNorm => (23nat, '_', 'n', 'n', 'g'),
        LayerName::LinearOut => (27nat, '_', 'n', 'o', '.'),
    }
}

proof fn lemma_mark(n: LayerName)
    ensures
        mark(n.tail()) == mark_of(n),
{
    match n {
        LayerName::InputLayernorm => {
            reveal_strlit("input_layernorm.weight");
        },
        LayerName::Norm => {
            reveal_strlit("norm.weight");
        },
        LayerName::PostAttentionLayernorm => {
            reveal_strlit("post_attention_layernorm.weight");
        },
        LayerName::MixerInProj => {
            reveal_strlit("mixer.in_proj.weight");
        },
        LayerName::MixerConvWeight => {
            reveal_strlit("mixer.conv1d.weight");
        },
        LayerName::MixerConvBias => {
            reveal_strlit("mixer.conv1d.bias");
        },
        LayerName::MixerDtBias => {
            reveal_strlit("mixer.dt_bias");
        },
        LayerName::MixerALog => {
            reveal_strlit("mixer.A_log");
        },
        LayerName::MixerD => {
            reveal_strlit("mixer.D");
        },
        LayerName::MixerNorm => {
            reveal_strlit("mixer.norm.weight");
        },
        LayerName::MixerOutProj => {
            reveal_strlit("mixer.out_proj.weight");
        },
        LayerName::MixerGate => {
            reveal_strlit("mixer.gate.weight");
        },
        LayerName::AttnQ => {
            reveal_strlit("self_attn.q_proj.weight");
        },
        LayerName::AttnK => {
            reveal_strlit("self_attn.k_proj.weight");
        },
        LayerName::AttnV => {
            reveal_strlit("self_attn.v_proj.weight");
        },
        LayerName::AttnO => {
            reveal_strlit("self_attn.o_proj.weight");
        },
        LayerName::MixerQ => {
            reveal_strlit("mixer.q_proj.weight");
        },
        LayerName::MixerK => {
            reveal_strlit("mixer.k_proj.weight");
        },
        LayerName::MixerV => {
            reveal_strlit("mixer.v_proj.weight");
        },
        LayerName::MixerO => {
            reveal_strlit("mixer.o_proj.weight");
        },
        LayerName::QNorm => {
            reveal_strlit("self_attn.q_norm.weight");
        },
        LayerName::KNorm => {
            reveal_strlit("self_attn.k_norm.weight");
        },
        LayerName::MlpGate => {
            reveal_strlit("mlp.gate_proj.weight");
        },
        LayerName::MlpUp => {
            reveal_strlit("mlp.up_proj.weight");
        },
        LayerName::MlpDown => {
            reveal_strlit("mlp.down_proj.weight");
        },
        LayerName::LinearConv => {
            reveal_strlit("linear_attn.conv1d.weight");
        },
        LayerName::LinearQkv => {
            reveal_strlit("linear_attn.in_proj_qkv.weight");
        },
        LayerName::LinearA => {
            reveal_strlit("linear_attn.in_proj_a.weight");
        },
        LayerName::LinearB => {
            reveal_strlit("linear_attn.in_proj_b.weight");
        },
        LayerName::LinearZ => {
            reveal_strlit("linear_attn.in_proj_z.weight");
        },
        LayerName::LinearALog => {
            reveal_strlit("linear_attn.A_log");
        },
        LayerName::LinearDtBias => {
            reveal_strlit("linear_attn.dt_bias");
        },
        LayerName::LinearNorm => {
            reveal_strlit("linear_attn.norm.weight");
        },
        LayerName::LinearOut => {
            reveal_strlit("linear_attn.out_proj.weight");
        },
    }
}

/// No two tensors of a layer share a name.
pub proof fn law_names_apart(a: LayerName, b: LayerName, prefix: Seq<char>)
    requires
        a.full(prefix) == b.full(prefix),
    ensures
        a == b,
{
    let n = prefix.len() as int;
    assert(a.tail() =~= a.full(prefix).skip(n));
    assert(b.tail() =~= b.full(prefix).skip(n));
    lemma_mark(a);
    lemma_mark(b);
}

} // verus!
