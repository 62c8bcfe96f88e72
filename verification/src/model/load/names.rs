//! Finding tensors by name.

use vstd::prelude::*;
use vstd::string::*;
use crate::config::{LayerConfig, LayerType, ModelConfig};
use crate::error::{missing, ModelError};
use crate::tensors::Sources;
use crate::text;
use crate::text::{contains, decimal_text, ends_with, joined, split_at_first, starts_with};

verus! {

// ---- the prefix of all layers ----

/// Which layer prefix is wanted.
#[derive(Clone, Copy, Debug, PartialEq, Eq, Structural)]
pub enum PrefixRule {
    /// One of the model proper.
    Model,
    /// Any but that of a draft head.
    NotDraft,
    Any,
}

pub open spec fn prefix_fits(rule: PrefixRule, prefix: Seq<char>) -> bool {
    match rule {
        PrefixRule::Model => text::occurs(prefix, "model"@),
        PrefixRule::NotDraft => !text::occurs(prefix, "mtp"@),
        PrefixRule::Any => true,
    }
}

/// What stands before layer 0 in a tensor name.
pub open spec fn layer_prefix(name: Seq<char>) -> Option<Seq<char>> {
    match text::split_first(name, "layers.0."@) {
        Some((a, _)) => Some(a),
        None => None,
    }
}

/// The first layer prefix that fits.
pub open spec fn first_prefix(names: Seq<String>, rule: PrefixRule) -> Option<Seq<char>>
    decreases names.len(),
{
    if names.len() == 0 {
        None
    } else {
        match layer_prefix(names[0]@) {
            Some(p) => if prefix_fits(rule, p) {
                Some(p)
            } else {
                first_prefix(names.skip(1), rule)
            },
            None => first_prefix(names.skip(1), rule),
        }
    }
}

/// The prefix of the model's tensors: one that mentions the model, else one that
/// does not mention a draft head, else the first.
pub open spec fn prefix_of(names: Seq<String>) -> Option<Seq<char>> {
    match first_prefix(names, PrefixRule::Model) {
        Some(p) => Some(p),
        None => match first_prefix(names, PrefixRule::NotDraft) {
            Some(p) => Some(p),
            None => first_prefix(names, PrefixRule::Any),
        },
    }
}

fn find_prefix(names: &Vec<String>, rule: PrefixRule) -> (r: Option<String>)
    ensures
        r is Some <==> first_prefix(names@, rule) is Some,
        r matches Some(p) ==> p@ == first_prefix(names@, rule)->0,
{
    proof {
        reveal_strlit("layers.0.");
    }
    let mut i: usize = 0;
    assert(names@.skip(0) =~= names@);
    while i < names.len()
        invariant
            "layers.0."@.len() > 0,
            i <= names@.len(),
            first_prefix(names@.skip(i as int), rule) == first_prefix(names@, rule),
        decreases names@.len() - i,
    {
        assert(names@.skip(i as int)[0] == names@[i as int]);
        assert(names@.skip(i as int).skip(1) =~= names@.skip(i + 1));
        match split_at_first(names[i].as_str(), "layers.0.") {
            Some((p, _)) => {
                let fits = match rule {
                    PrefixRule::Model => contains(p, "model"),
                    PrefixRule::NotDraft => !contains(p, "mtp"),
                    PrefixRule::Any => true,
                };
                if fits {
                    return Some(p.to_owned());
                }
            },
            None => {},
        }
        i += 1;
    }
    None
}

/// Finds the prefix of the model's tensors.
pub fn discover_prefix(names: &Vec<String>) -> (r: Result<String, ModelError>)
    ensures
        r is Ok <==> prefix_of(names@) is Some,
        r matches Ok(p) ==> p@ == prefix_of(names@)->0,
        r matches Err(e) ==> e.is_missing("no layers.0. tensor found"@),
{
    let found = match find_prefix(names, PrefixRule::Model) {
        Some(p) => Some(p),
        None => match find_prefix(names, PrefixRule::NotDraft) {
            Some(p) => Some(p),
            None => find_prefix(names, PrefixRule::Any),
        },
    };
    match found {
        Some(p) => Ok(p),
        None => Err(missing("no layers.0. tensor found")),
    }
}

/// Names to search: those of the archive where it lists any, else the raw ones.
pub fn tensor_names(packed: Option<Vec<String>>, raw: Vec<String>) -> (r: Vec<String>)
    ensures
        r@ == (if packed is Some && packed->0@.len() > 0 {
            packed->0@
        } else {
            raw@
        }),
{
    match packed {
        Some(names) => {
            if names.len() > 0 {
                names
            } else {
                raw
            }
        },
        None => raw,
    }
}

/// A prefix is found as soon as any tensor belongs to layer 0.
pub proof fn law_prefix_found(names: Seq<String>, i: int)
    requires
        0 <= i < names.len(),
        layer_prefix(names[i]@) is Some,
    ensures
        prefix_of(names) is Some,
{
    lemma_any_prefix(names, i);
}

proof fn lemma_any_prefix(names: Seq<String>, i: int)
    requires
        0 <= i < names.len(),
        layer_prefix(names[i]@) is Some,
    ensures
        first_prefix(names, PrefixRule::Any) is Some,
    decreases names.len(),
{
    if i > 0 && layer_prefix(names[0]@) is None {
        lemma_any_prefix(names.skip(1), i - 1);
    }
}

// ---- single tensors ----

/// Which tensor is wanted.
#[derive(Clone, Copy, Debug, PartialEq, Eq, Structural)]
pub enum NameRule {
    QkNorm,
    EmbedUnderPrefix,
    Embed,
    FinalNormUnderPrefix,
    FinalNorm,
    LmHead,
}

pub open spec fn is_embed(n: Seq<char>) -> bool {
    ||| text::occurs(n, "embed_tokens.weight"@)
    ||| text::occurs(n, "tok_embeddings.weight"@)
    ||| text::ends(n, "wte.weight"@)
    ||| text::occurs(n, "embeddings.weight"@)
}

/// Whether a tensor name fits the rule.
pub open spec fn name_fits(rule: NameRule, prefix: Seq<char>, n: Seq<char>) -> bool {
    match rule {
        NameRule::QkNorm => text::occurs(n, "q_norm.weight"@),
        NameRule::EmbedUnderPrefix => text::begins(n, prefix) && is_embed(n),
        NameRule::Embed => is_embed(n),
        NameRule::FinalNormUnderPrefix => {
            &&& text::begins(n, prefix)
            &&& text::ends(n, "norm.weight"@) || text::ends(n, "ln_f.weight"@) || text::ends(
                n,
                "norm_f.weight"@,
            )
            &&& !text::occurs(n, "layers."@)
        },
        NameRule::FinalNorm => {
            &&& text::occurs(n, "norm.weight"@) || text::occurs(n, "ln_f.weight"@) || text::occurs(
                n,
                "norm_f.weight"@,
            )
            &&& !text::occurs(n, "layers."@)
            &&& !text::occurs(n, "visual"@)
            &&& !text::occurs(n, "mtp"@)
        },
        NameRule::LmHead => text::occurs(n, "lm_head.weight"@),
    }
}

/// The first name that fits.
pub open spec fn first_name(names: Seq<String>, rule: NameRule, prefix: Seq<char>) -> Option<
    Seq<char>,
>
    decreases names.len(),
{
    if names.len() == 0 {
        None
    } else if name_fits(rule, prefix, names[0]@) {
        Some(names[0]@)
    } else {
        first_name(names.skip(1), rule, prefix)
    }
}

fn is_embed_exec(n: &str) -> (r: bool)
    ensures
        r == is_embed(n@),
{
    contains(n, "embed_tokens.weight") || contains(n, "tok_embeddings.weight") || ends_with(
        n,
        "wte.weight",
    ) || contains(n, "embeddings.weight")
}

fn name_fits_exec(rule: NameRule, prefix: &str, n: &str) -> (r: bool)
    ensures
        r == name_fits(rule, prefix@, n@),
{
    match rule {
        NameRule::QkNorm => contains(n, "q_norm.weight"),
        NameRule::EmbedUnderPrefix => starts_with(n, prefix) && is_embed_exec(n),
        NameRule::Embed => is_embed_exec(n),
        NameRule::FinalNormUnderPrefix => {
            starts_with(n, prefix) && (ends_with(n, "norm.weight") || ends_with(n, "ln_f.weight")
                || ends_with(n, "norm_f.weight")) && !contains(n, "layers.")
        },
        NameRule::FinalNorm => {
            (contains(n, "norm.weight") || contains(n, "ln_f.weight") || contains(
                n,
                "norm_f.weight",
            )) && !contains(n, "layers.") && !contains(n, "visual") && !contains(n, "mtp")
        },
        NameRule::LmHead => contains(n, "lm_head.weight"),
    }
}

fn find_name(names: &Vec<String>, rule: NameRule, prefix: &str) -> (r: Option<String>)
    ensures
        r is Some <==> first_name(names@, rule, prefix@) is Some,
        r matches Some(n) ==> n@ == first_name(names@, rule, prefix@)->0,
{
    let mut i: usize = 0;
    assert(names@.skip(0) =~= names@);
    while i < names.len()
        invariant
            i <= names@.len(),
            first_name(names@.skip(i as int), rule, prefix@) == first_name(names@, rule, prefix@),
        decreases names@.len() - i,
    {
        assert(names@.skip(i as int)[0] == names@[i as int]);
        assert(names@.skip(i as int).skip(1) =~= names@.skip(i + 1));
        if name_fits_exec(rule, prefix, names[i].as_str()) {
            return Some(names[i].as_str().to_owned());
        }
        i += 1;
    }
    None
}

/// Whether queries and keys are normed.
pub fn has_qk_norm(names: &Vec<String>) -> (r: bool)
    ensures
        r == (first_name(names@, NameRule::QkNorm, Seq::empty()) is Some),
{
    proof {
        reveal_strlit("");
        assert(""@ =~= Seq::empty());
    }
    find_name(names, NameRule::QkNorm, "").is_some()
}

/// The first name under the prefix, else the first anywhere.
pub open spec fn preferred(
    names: Seq<String>,
    under: NameRule,
    anywhere: NameRule,
    prefix: Seq<char>,
) -> Option<Seq<char>> {
    match first_name(names, under, prefix) {
        Some(n) => Some(n),
        None => first_name(names, anywhere, prefix),
    }
}

fn find_preferred(names: &Vec<String>, under: NameRule, anywhere: NameRule, prefix: &str) -> (r:
    Option<String>)
    ensures
        r is Some <==> preferred(names@, under, anywhere, prefix@) is Some,
        r matches Some(n) ==> n@ == preferred(names@, under, anywhere, prefix@)->0,
{
    match find_name(names, under, prefix) {
        Some(n) => Some(n),
        None => find_name(names, anywhere, prefix),
    }
}

/// Name of the embedding.
pub fn embed_name(names: &Vec<String>, prefix: &str) -> (r: Result<String, ModelError>)
    ensures
        ({
            let want = preferred(names@, NameRule::EmbedUnderPrefix, NameRule::Embed, prefix@);
            &&& r is Ok <==> want is Some
            &&& r matches Ok(n) ==> n@ == want->0
            &&& r matches Err(e) ==> e.is_missing("embedding tensor not found"@)
        }),
{
    match find_preferred(names, NameRule::EmbedUnderPrefix, NameRule::Embed, prefix) {
        Some(n) => Ok(n),
        None => Err(missing("embedding tensor not found")),
    }
}

/// Name of the final norm.
pub fn norm_name(names: &Vec<String>, prefix: &str) -> (r: Result<String, ModelError>)
    ensures
        ({
            let want = preferred(
                names@,
                NameRule::FinalNormUnderPrefix,
                NameRule::FinalNorm,
                prefix@,
            );
            &&& r is Ok <==> want is Some
            &&& r matches Ok(n) ==> n@ == want->0
            &&& r matches Err(e) ==> e.is_missing("final norm tensor not found"@)
        }),
{
    match find_preferred(names, NameRule::FinalNormUnderPrefix, NameRule::FinalNorm, prefix) {
        Some(n) => Ok(n),
        None => Err(missing("final norm tensor not found")),
    }
}

/// Name of the LM head; none where it shares the embedding.
pub fn lm_head_name(names: &Vec<String>, tied: bool) -> (r: Result<Option<String>, ModelError>)
    ensures
        ({
            let want = first_name(names@, NameRule::LmHead, Seq::empty());
            &&& tied ==> r is Ok && r->Ok_0 is None
            &&& !tied ==> (r is Ok <==> want is Some)
            &&& !tied && r is Ok ==> r->Ok_0 is Some && r->Ok_0->0@ == want->0
            &&& r matches Err(e) ==> e.is_missing("lm_head.weight not found"@)
        }),
{
    if tied {
        return Ok(None);
    }
    proof {
        reveal_strlit("");
        assert(""@ =~= Seq::empty());
    }
    match find_name(names, NameRule::LmHead, "") {
        Some(n) => Ok(Some(n)),
        None => Err(missing("lm_head.weight not found")),
    }
}

// ---- gated queries ----

/// The first attention layer, if any.
pub open spec fn first_attention(layers: Seq<LayerConfig>, from: int) -> Option<int>
    decreases layers.len() - from,
{
    if from < 0 || from >= layers.len() {
        None
    } else if layers[from].layer_type == LayerType::Attention {
        Some(from)
    } else {
        first_attention(layers, from + 1)
    }
}

/// Name of a layer's query projection.
pub open spec fn q_proj_name(prefix: Seq<char>, layer: nat) -> Seq<char> {
    prefix + "layers."@ + text::decimal(layer) + ".self_attn.q_proj.weight"@
}

/// Queries carry a gate where their projection has twice the rows.
pub open spec fn output_gate(src: &Sources, config: &ModelConfig, prefix: Seq<char>) -> bool {
    let rows = config.num_q_heads * config.head_dim * 2;
    match first_attention(config.layers@, 0) {
        None => false,
        Some(i) => {
            let name = q_proj_name(prefix, i as nat);
            match src.packed_info(name) {
                Some(info) => info.out_features == rows,
                None => match src.raw.lookup(name) {
                    Some(info) => info.bytes == rows * config.hidden_size * 2,
                    None => false,
                },
            }
        },
    }
}

fn first_attention_exec(layers: &Vec<LayerConfig>) -> (r: Option<usize>)
    ensures
        r is Some <==> first_attention(layers@, 0) is Some,
        r matches Some(i) ==> first_attention(layers@, 0) == Some(i as int),
{
    let mut i: usize = 0;
    while i < layers.len()
        invariant
            i <= layers@.len(),
            first_attention(layers@, i as int) == first_attention(layers@, 0),
        decreases layers@.len() - i,
    {
        if layers[i].layer_type == LayerType::Attention {
            return Some(i);
        }
        i += 1;
    }
    None
}

/// Detects gated queries from the first attention layer.
pub fn has_output_gate(src: &Sources, config: &ModelConfig, prefix: &str) -> (r: bool)
    requires
        config.num_q_heads * config.head_dim <= usize::MAX,
        config.num_q_heads * config.head_dim * 2 <= usize::MAX,
        config.num_q_heads * config.head_dim * 2 * config.hidden_size * 2 <= usize::MAX,
    ensures
        r == output_gate(src, config, prefix@),
{
    let rows: usize = config.num_q_heads * config.head_dim * 2;
    match first_attention_exec(&config.layers) {
        None => false,
        Some(i) => {
            let mut name: String = joined(prefix, "layers.");
            name.append(decimal_text(i).as_str());
            name.append(".self_attn.q_proj.weight");
            match src.packed_entry(name.as_str()) {
                Some(info) => info.out_features == rows,
                None => match src.raw_entry(name.as_str()) {
                    Some(info) => {
                        proof {
                            let h = config.hidden_size as int;
                            assert(rows * h <= rows * h * 2) by (nonlinear_arith)
                                requires
                                    rows >= 0,
                                    h >= 0,
                            ;
                        }
                        info.bytes == rows * config.hidden_size * 2
                    },
                    None => false,
                },
            }
        },
    }
}

// ---- laws ----

/// The name that is found fits, and none before it does; where none is found, none fits.
pub proof fn law_first_name(names: Seq<String>, rule: NameRule, prefix: Seq<char>)
    ensures
        first_name(names, rule, prefix) matches Some(n) ==> exists|i: int|
            0 <= i < names.len() && n == (#[trigger] names[i])@ && name_fits(rule, prefix, n)
                && forall|j: int| 0 <= j < i ==> !name_fits(rule, prefix, (#[trigger] names[j])@),
        first_name(names, rule, prefix) is None ==> forall|j: int|
            0 <= j < names.len() ==> !name_fits(rule, prefix, (#[trigger] names[j])@),
    decreases names.len(),
{
    if names.len() > 0 && !name_fits(rule, prefix, names[0]@) {
        let rest = names.skip(1);
        law_first_name(rest, rule, prefix);
        match first_name(rest, rule, prefix) {
            Some(n) => {
                let i = choose|i: int|
                    0 <= i < rest.len() && n == (#[trigger] rest[i])@ && name_fits(rule, prefix, n)
                        && forall|j: int|
                        0 <= j < i ==> !name_fits(rule, prefix, (#[trigger] rest[j])@);
                assert(names[i + 1] == rest[i]);
                assert forall|j: int| 0 <= j < i + 1 implies !name_fits(
                    rule,
                    prefix,
                    (#[trigger] names[j])@,
                ) by {
                    if j > 0 {
                        assert(rest[j - 1] == names[j]);
                    }
                }
            },
            None => {
                assert forall|j: int| 0 <= j < names.len() implies !name_fits(
                    rule,
                    prefix,
                    (#[trigger] names[j])@,
                ) by {
                    if j > 0 {
                        assert(rest[j - 1] == names[j]);
                    }
                }
            },
        }
    } else if names.len() > 0 {
        assert(names[0]@ == first_name(names, rule, prefix)->0);
    }
}

proof fn lemma_first_prefix(names: Seq<String>, rule: PrefixRule)
    ensures
        first_prefix(names, rule) matches Some(p) ==> prefix_fits(rule, p) && exists|i: int|
            0 <= i < names.len() && layer_prefix((#[trigger] names[i])@) == Some(p),
        first_prefix(names, rule) is None ==> forall|i: int|
            0 <= i < names.len() ==> (layer_prefix((#[trigger] names[i])@) matches Some(p)
                ==> !prefix_fits(rule, p)),
    decreases names.len(),
{
    if names.len() > 0 {
        let rest = names.skip(1);
        lemma_first_prefix(rest, rule);
        match first_prefix(rest, rule) {
            Some(p) => {
                let i = choose|i: int|
                    0 <= i < rest.len() && layer_prefix((#[trigger] rest[i])@) == Some(p);
                assert(names[i + 1] == rest[i]);
            },
            None => {
                assert forall|i: int|
                    1 <= i < names.len() implies (layer_prefix(
                    (#[trigger] names[i])@,
                ) matches Some(p) ==> !prefix_fits(rule, p)) by {
                    assert(rest[i - 1] == names[i]);
                }
            },
        }
        assert(layer_prefix(names[0]@) == layer_prefix(names[0]@));
    }
}

/// The prefix is that of a tensor of layer 0. It mentions the model if any such prefix
/// does, and a draft head only if all do.
pub proof fn law_prefix_preferred(names: Seq<String>, i: int)
    requires
        0 <= i < names.len(),
        layer_prefix(names[i]@) is Some,
    ensures
        ({
            let q = layer_prefix(names[i]@)->0;
            prefix_of(names) matches Some(p) && {
                &&& exists|k: int|
                    0 <= k < names.len() && layer_prefix((#[trigger] names[k])@) == Some(p)
                &&& text::occurs(q, "model"@) ==> text::occurs(p, "model"@)
                &&& !text::occurs(q, "mtp"@) ==> text::occurs(p, "model"@) || !text::occurs(
                    p,
                    "mtp"@,
                )
            }
        }),
{
    law_prefix_found(names, i);
    lemma_first_prefix(names, PrefixRule::Model);
    lemma_first_prefix(names, PrefixRule::NotDraft);
    lemma_first_prefix(names, PrefixRule::Any);
}

/// The first attention layer attends, and none before it does.
pub proof fn law_first_attention(layers: Seq<LayerConfig>, from: int)
    requires
        0 <= from <= layers.len(),
    ensures
        match first_attention(layers, from) {
            Some(i) => from <= i < layers.len() && layers[i].layer_type == LayerType::Attention
                && forall|j: int|
                from <= j < i ==> (#[trigger] layers[j]).layer_type != LayerType::Attention,
            None => forall|j: int|
                from <= j < layers.len() ==> (#[trigger] layers[j]).layer_type
                    != LayerType::Attention,
        },
    decreases layers.len() - from,
{
    if from < layers.len() && layers[from].layer_type != LayerType::Attention {
        law_first_attention(layers, from + 1);
    }
}

} // verus!
