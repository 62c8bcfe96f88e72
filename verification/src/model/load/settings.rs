//! Settings that steer loading.

use vstd::prelude::*;
use crate::config::WeightQuantMode;
use crate::error::{invalid, ModelError};
use crate::text;
use crate::text::{parse_number, same_text, split_at_first, trim};

verus! {

/// Longest sequence a model is given unless more is asked for.
pub const DEFAULT_MAX_SEQ_LEN: usize = 8192;

/// Device memory left free beside the resident archive.
pub const ARENA_VRAM_HEADROOM_BYTES: u64 = 2147483648;

/// Quantized KV and several GPUs exclude each other.
pub fn check_kv_quant(kv_quant: bool, multi_gpu: bool) -> (r: Result<(), ModelError>)
    ensures
        r is Err <==> kv_quant && multi_gpu,
        r matches Err(e) ==> e.is_invalid(
            "KV_QUANT=1 is not supported with MULTI_GPU (multi-GPU paged KV dispatch not yet implemented). Either unset KV_QUANT, or unset MULTI_GPU."@,
        ),
{
    if kv_quant && multi_gpu {
        return Err(
            invalid(
                "KV_QUANT=1 is not supported with MULTI_GPU (multi-GPU paged KV dispatch not yet implemented). Either unset KV_QUANT, or unset MULTI_GPU.",
            ),
        );
    }
    Ok(())
}

/// Where the model description comes from.
#[derive(Clone, Copy, Debug, PartialEq, Eq, Structural)]
pub enum ConfigSource {
    /// The archive's metadata.
    Embedded,
    /// `config.json` in the model directory.
    ConfigJson,
    /// The built-in description of the smallest model.
    BuiltIn,
}

/// Prefers the embedded description, then `config.json`.
pub fn config_source(embedded: bool, config_json_exists: bool) -> (r: ConfigSource)
    ensures
        r == if embedded {
            ConfigSource::Embedded
        } else if config_json_exists {
            ConfigSource::ConfigJson
        } else {
            ConfigSource::BuiltIn
        },
{
    if embedded {
        ConfigSource::Embedded
    } else if config_json_exists {
        ConfigSource::ConfigJson
    } else {
        ConfigSource::BuiltIn
    }
}

/// The sequence length to plan for: what was asked for, else what the model claims
/// up to the default.
pub fn effective_max_seq_len(requested: Option<usize>, claimed: usize) -> (r: usize)
    ensures
        r == match requested {
            Some(n) => n,
            None => if claimed <= DEFAULT_MAX_SEQ_LEN {
                claimed
            } else {
                DEFAULT_MAX_SEQ_LEN
            },
        },
{
    match requested {
        Some(n) => n,
        None => {
            if claimed <= DEFAULT_MAX_SEQ_LEN {
                claimed
            } else {
                DEFAULT_MAX_SEQ_LEN
            }
        },
    }
}

/// How weights are quantized on load.
pub fn weight_quant_mode(setting: Option<&str>) -> (r: WeightQuantMode)
    ensures
        r == match setting {
            Some(s) => if s@ == "rnf4"@ {
                WeightQuantMode::Rnf4
            } else if s@ == "mixed"@ {
                WeightQuantMode::Mixed
            } else {
                WeightQuantMode::Bf16
            },
            None => WeightQuantMode::Bf16,
        },
{
    match setting {
        Some(s) => {
            if same_text(s, "rnf4") {
                WeightQuantMode::Rnf4
            } else if same_text(s, "mixed") {
                WeightQuantMode::Mixed
            } else {
                WeightQuantMode::Bf16
            }
        },
        None => WeightQuantMode::Bf16,
    }
}

/// Whether the archive's data section becomes resident as one block: on a single
/// GPU, without experts, and where it fits with headroom. Free memory of zero means
/// unknown.
pub fn use_weight_arena(multi_gpu: bool, has_moe: bool, data_section: Option<u64>, free: u64) -> (r:
    bool)
    requires
        data_section matches Some(n) ==> n + ARENA_VRAM_HEADROOM_BYTES <= u64::MAX,
    ensures
        r == (!multi_gpu && !has_moe && data_section is Some && (free == 0 || data_section->0
            + ARENA_VRAM_HEADROOM_BYTES <= free)),
{
    if multi_gpu || has_moe {
        return false;
    }
    match data_section {
        Some(n) => free == 0 || n + ARENA_VRAM_HEADROOM_BYTES <= free,
        None => false,
    }
}

// ---- layer ranges ----

/// Layers from `first` to `last`, both included.
#[derive(Clone, Copy, Debug, PartialEq, Eq, Structural)]
pub struct LayerRange {
    pub first: usize,
    pub last: usize,
}

/// The parts of a list separated by commas.
pub open spec fn comma_parts(s: Seq<char>) -> Seq<Seq<char>>
    decreases s.len(),
{
    match text::split_first(s, ","@) {
        None => seq![s],
        Some((a, b)) => if b.len() < s.len() {
            seq![a] + comma_parts(b)
        } else {
            seq![s]
        },
    }
}

/// What one part names: `a-b`, a single layer, or nothing.
pub open spec fn part_range(part: Seq<char>) -> Option<LayerRange> {
    let p = text::trimmed(part);
    match text::split_first(p, "-"@) {
        Some((a, b)) => match text::parsed(a, usize::MAX as nat) {
            Some(x) => match text::parsed(b, usize::MAX as nat) {
                Some(y) => Some(LayerRange { first: x as usize, last: y as usize }),
                None => None,
            },
            None => None,
        },
        None => match text::parsed(p, usize::MAX as nat) {
            Some(x) => Some(LayerRange { first: x as usize, last: x as usize }),
            None => None,
        },
    }
}

/// The ranges that the first `n` parts name.
pub open spec fn ranges_of(parts: Seq<Seq<char>>) -> Seq<LayerRange>
    decreases parts.len(),
{
    if parts.len() == 0 {
        Seq::empty()
    } else {
        match part_range(parts[0]) {
            Some(r) => seq![r] + ranges_of(parts.skip(1)),
            None => ranges_of(parts.skip(1)),
        }
    }
}

/// Whether a layer lies in one of the ranges.
pub open spec fn in_ranges(ranges: Seq<LayerRange>, layer: usize) -> bool {
    exists|i: int|
        0 <= i < ranges.len() && (#[trigger] ranges[i]).first <= layer && layer
            <= ranges[i].last
}

fn range_of_part(part: &str) -> (r: Option<LayerRange>)
    ensures
        r == part_range(part@),
{
    proof {
        reveal_strlit("-");
    }
    let p = trim(part);
    match split_at_first(p, "-") {
        Some((a, b)) => {
            match (parse_number(a, usize::MAX), parse_number(b, usize::MAX)) {
                (Some(first), Some(last)) => Some(LayerRange { first, last }),
                _ => None,
            }
        },
        None => match parse_number(p, usize::MAX) {
            Some(n) => Some(LayerRange { first: n, last: n }),
            None => None,
        },
    }
}

/// Reads a list such as `0-11,20`; parts that name nothing are passed over.
pub fn parse_quant_layers(setting: &str) -> (r: Vec<LayerRange>)
    ensures
        r@ == ranges_of(comma_parts(setting@)),
{
    proof {
        reveal_strlit(",");
    }
    let mut ranges: Vec<LayerRange> = Vec::new();
    let mut rest: &str = setting;
    let mut more: bool = true;
    assert(ranges@ + ranges_of(comma_parts(rest@)) =~= ranges_of(comma_parts(setting@)));
    while more
        invariant
            ","@.len() == 1,
            more ==> ranges@ + ranges_of(comma_parts(rest@)) == ranges_of(comma_parts(setting@)),
            !more ==> ranges@ == ranges_of(comma_parts(setting@)),
        decreases
                if more {
                    rest@.len() + 1
                } else {
                    0
                },
    {
        let ghost before = ranges@;
        let ghost parts = comma_parts(rest@);
        match split_at_first(rest, ",") {
            Some((part, tail)) => {
                assert(parts =~= seq![part@] + comma_parts(tail@));
                assert(parts.skip(1) =~= comma_parts(tail@));
                match range_of_part(part) {
                    Some(range) => {
                        ranges.push(range);
                    },
                    None => {},
                }
                assert(ranges@ + ranges_of(comma_parts(tail@)) =~= before + ranges_of(parts));
                rest = tail;
            },
            None => {
                assert(parts =~= seq![rest@]);
                assert(parts.skip(1) =~= Seq::empty());
                match range_of_part(rest) {
                    Some(range) => {
                        ranges.push(range);
                    },
                    None => {},
                }
                assert(ranges@ =~= before + ranges_of(parts)) by {
                    reveal_with_fuel(ranges_of, 2);
                }
                more = false;
            },
        }
    }
    ranges
}

/// Whether a layer's weights are quantized: all are, unless ranges were given.
pub fn quantizes_layer(ranges: Option<&Vec<LayerRange>>, layer: usize) -> (r: bool)
    ensures
        r == (ranges is None || in_ranges(ranges->0@, layer)),
{
    match ranges {
        None => true,
        Some(v) => {
            let mut i: usize = 0;
            while i < v.len()
                invariant
                    ranges == Some(v),
                    i <= v@.len(),
                    forall|k: int|
                        0 <= k < i ==> !((#[trigger] v@[k]).first <= layer && layer <= v@[k].last),
                decreases v@.len() - i,
            {
                if v[i].first <= layer && layer <= v[i].last {
                    assert(in_ranges(v@, layer));
                    return true;
                }
                i += 1;
            }
            false
        },
    }
}

// ---- laws ----

/// A part that is a number names that layer; two numbers with a hyphen between them name
/// the layers from the first to the second.
pub proof fn law_ranges_read(first: usize, last: usize)
    ensures
        part_range(text::decimal(first as nat)) == Some(LayerRange { first, last: first }),
        part_range(text::decimal(first as nat) + "-"@ + text::decimal(last as nat)) == Some(
            LayerRange { first, last },
        ),
{
    reveal_strlit("-");
    let (a, b) = (text::decimal(first as nat), text::decimal(last as nat));
    let max = usize::MAX as nat;
    text::law_number_round_trip(first as nat, max);
    text::law_number_round_trip(last as nat, max);
    let hyphen = "-"@;
    let s = a + hyphen + b;
    assert(text::is_digit(a[0]));
    assert(text::is_digit(a.last())) by {
        assert(a[a.len() - 1] == a.last());
    }
    assert(text::is_digit(b.last())) by {
        assert(b[b.len() - 1] == b.last());
    }
    assert(s[0] == a[0] && s.last() == b.last());
    text::law_split_rejoins(a, hyphen);
    text::law_split_rejoins(s, hyphen);
    assert(text::split_first(a, hyphen) is None) by {
        if text::occurs(a, hyphen) {
            let i = choose|i: int| text::occurs_at(a, hyphen, i);
            assert(a.subrange(i, i + 1)[0] == '-');
            assert(text::is_digit(a[i]));
        }
    }
    let at = a.len() as int;
    assert(s.subrange(at, at + 1) =~= hyphen);
    assert(text::occurs_at(s, hyphen, at));
    let (x, y) = text::split_first(s, hyphen)->0;
    assert(x.len() == at) by {
        if x.len() < at {
            assert(s[x.len() as int] == '-') by {
                assert((x + hyphen + y)[x.len() as int] == hyphen[0]);
            }
            assert(text::is_digit(a[x.len() as int]));
        }
    }
    assert(x =~= a) by {
        assert forall|i: int| 0 <= i < x.len() implies x[i] == a[i] by {
            assert((x + hyphen + y)[i] == x[i]);
            assert(s[i] == a[i]);
        }
    }
    assert(y =~= b) by {
        assert(y.len() == b.len());
        assert forall|i: int| 0 <= i < y.len() implies y[i] == b[i] by {
            assert((x + hyphen + y)[at + 1 + i] == y[i]);
            assert(s[at + 1 + i] == b[i]);
        }
    }
}

/// The parts of a list, with commas between them.
pub open spec fn with_commas(parts: Seq<Seq<char>>) -> Seq<char>
    decreases parts.len(),
{
    if parts.len() == 0 {
        Seq::empty()
    } else if parts.len() == 1 {
        parts[0]
    } else {
        parts[0] + ","@ + with_commas(parts.skip(1))
    }
}

/// Cutting a list at its commas loses nothing, and no part has a comma left.
pub proof fn law_list_rejoins(s: Seq<char>)
    ensures
        comma_parts(s).len() > 0,
        with_commas(comma_parts(s)) == s,
        forall|i: int|
            0 <= i < comma_parts(s).len() ==> !text::occurs(#[trigger] comma_parts(s)[i], ","@),
    decreases s.len(),
{
    reveal_strlit(",");
    let comma = ","@;
    text::law_split_rejoins(s, comma);
    let parts = comma_parts(s);
    match text::split_first(s, comma) {
        None => {
            assert(parts[0] == s);
        },
        Some((a, b)) => {
            assert(s.len() == a.len() + 1 + b.len());
            law_list_rejoins(b);
            let rest = comma_parts(b);
            assert(parts.skip(1) =~= rest);
            assert(parts[0] == a);
            assert(!text::occurs(a, comma)) by {
                if text::occurs(a, comma) {
                    let i = choose|i: int| text::occurs_at(a, comma, i);
                    assert(s.subrange(i, i + 1) =~= a.subrange(i, i + 1));
                    assert(text::occurs_at(s, comma, i));
                }
            }
            assert forall|i: int| 0 <= i < parts.len() implies !text::occurs(
                #[trigger] parts[i],
                comma,
            ) by {
                if i > 0 {
                    assert(parts[i] == rest[i - 1]);
                }
            }
        },
    }
}

} // verus!
