//! Byte sizes and offsets inside a KV chunk, derived from the model description.

use vstd::prelude::*;
use crate::arith;
use crate::arith::product;
use crate::config::ModelConfig;

verus! {

/// Tokens per chunk that the quantized layout is built for.
pub const QUANT_GROUP_TOKENS: usize = 64;

/// Bytes of an `f32` chunk slot: layers x (K, V) x tokens x heads x head dim x 4.
pub open spec fn chunk_bytes_of(config: &ModelConfig, chunk_tokens: nat) -> nat {
    config.attn_layers() * 2 * chunk_tokens * (config.num_kv_heads as nat * config.head_dim as nat)
        * 4
}

/// Bytes of packed int4 data for one K or V of one layer.
pub open spec fn quant_data_bytes(config: &ModelConfig, chunk_tokens: nat) -> nat {
    config.num_kv_heads as nat * chunk_tokens * config.head_dim as nat / 2
}

/// Bytes of the per-channel scales for one K or V of one layer.
pub open spec fn quant_scale_bytes(config: &ModelConfig) -> nat {
    config.num_kv_heads as nat * config.head_dim as nat * 4
}

/// Bytes one K or V of one layer occupies: first pass and residual pass.
pub open spec fn quant_kv_region(config: &ModelConfig, chunk_tokens: nat) -> nat {
    2 * (quant_data_bytes(config, chunk_tokens) + quant_scale_bytes(config))
}

/// Bytes one layer occupies in a quantized chunk: K then V.
pub open spec fn quant_layer_region(config: &ModelConfig, chunk_tokens: nat) -> nat {
    2 * quant_kv_region(config, chunk_tokens)
}

/// Bytes of a quantized chunk slot.
pub open spec fn quant_chunk_bytes_of(config: &ModelConfig, chunk_tokens: nat) -> nat {
    config.attn_layers() * quant_layer_region(config, chunk_tokens)
}

/// Where the K or V region of an attention layer starts in a quantized chunk.
pub open spec fn quant_region_base(
    config: &ModelConfig,
    chunk_tokens: nat,
    layer: nat,
    is_value: bool,
) -> nat {
    layer * quant_layer_region(config, chunk_tokens) + if is_value {
        quant_kv_region(config, chunk_tokens)
    } else {
        0
    }
}

/// Bytes of one recurrent checkpoint.
pub open spec fn recurrent_bytes_of(config: &ModelConfig) -> nat {
    config.recurrent_layers() * (config.linear_num_heads as nat * config.linear_key_head_dim as nat
        * config.linear_value_head_dim as nat) * 4
}

/// KV bytes per unquantized chunk slot.
pub fn chunk_kv_bytes(config: &ModelConfig, chunk_tokens: usize) -> (bytes: usize)
    requires
        config.num_kv_heads * config.head_dim <= usize::MAX,
        chunk_bytes_of(config, chunk_tokens as nat) <= usize::MAX,
    ensures
        bytes == chunk_bytes_of(config, chunk_tokens as nat),
{
    let num_attn_layers: usize = config.num_attn_layers();
    let kv_stride: usize = config.num_kv_heads * config.head_dim;
    let factors = [num_attn_layers, 2usize, chunk_tokens, kv_stride, 4usize];
    proof {
        reveal_with_fuel(arith::product_of, 6);
        let s = factors@;
        assert(s.drop_last() =~= seq![num_attn_layers, 2usize, chunk_tokens, kv_stride]);
        assert(s.drop_last().drop_last() =~= seq![num_attn_layers, 2usize, chunk_tokens]);
        assert(s.drop_last().drop_last().drop_last() =~= seq![num_attn_layers, 2usize]);
        assert(s.drop_last().drop_last().drop_last().drop_last() =~= seq![num_attn_layers]);
        assert(arith::product_of(s) == chunk_bytes_of(config, chunk_tokens as nat));
    }
    product(&factors)
}

/// Unpacks a three-factor product.
proof fn lemma_product3(a: usize, b: usize, c: usize)
    ensures
        arith::product_of(seq![a, b, c]) == a as nat * b as nat * c as nat,
{
    reveal_with_fuel(arith::product_of, 4);
    let s = seq![a, b, c];
    assert(s.drop_last() =~= seq![a, b]);
    assert(s.drop_last().drop_last() =~= seq![a]);
}

/// A quantized chunk is at least as large as each of its pieces, so every
/// intermediate size fits when the chunk does.
proof fn lemma_quant_pieces(config: &ModelConfig, chunk_tokens: nat)
    ensures
        config.attn_layers() > 0 ==> quant_layer_region(config, chunk_tokens)
            <= quant_chunk_bytes_of(config, chunk_tokens),
        quant_layer_region(config, chunk_tokens) == 4 * quant_data_bytes(config, chunk_tokens) + 4
            * quant_scale_bytes(config),
{
    let n = config.attn_layers();
    let r = quant_layer_region(config, chunk_tokens);
    assert(n > 0 ==> r <= n * r) by (nonlinear_arith)
        requires
            n >= 0,
            r >= 0,
    ;
}

/// Sizes of one K or V: packed data bytes and scale bytes.
fn quant_piece_bytes(config: &ModelConfig, chunk_tokens: usize) -> (r: (usize, usize))
    requires
        config.num_kv_heads as nat * chunk_tokens as nat * config.head_dim as nat <= usize::MAX,
        quant_scale_bytes(config) <= usize::MAX,
    ensures
        r.0 == quant_data_bytes(config, chunk_tokens as nat),
        r.1 == quant_scale_bytes(config),
{
    let nkh: usize = config.num_kv_heads;
    let hd: usize = config.head_dim;
    let data = [nkh, chunk_tokens, hd];
    let scale = [nkh, hd, 4usize];
    proof {
        lemma_product3(nkh, chunk_tokens, hd);
        lemma_product3(nkh, hd, 4usize);
        assert(data@ =~= seq![nkh, chunk_tokens, hd]);
        assert(scale@ =~= seq![nkh, hd, 4usize]);
    }
    (product(&data) / 2, product(&scale))
}

/// KV bytes per quantized chunk slot. Layout of one K or V of one layer:
/// packed data, scales, residual data, residual scales.
pub fn quantized_chunk_kv_bytes(config: &ModelConfig, chunk_tokens: usize) -> (bytes: usize)
    requires
        chunk_tokens == QUANT_GROUP_TOKENS,
        config.num_kv_heads as nat * chunk_tokens as nat * config.head_dim as nat <= usize::MAX,
        quant_layer_region(config, chunk_tokens as nat) <= usize::MAX,
        quant_chunk_bytes_of(config, chunk_tokens as nat) <= usize::MAX,
    ensures
        bytes == quant_chunk_bytes_of(config, chunk_tokens as nat),
{
    proof {
        lemma_quant_pieces(config, chunk_tokens as nat);
    }
    let num_attn_layers: usize = config.num_attn_layers();
    let (data_bytes, scale_bytes): (usize, usize) = quant_piece_bytes(config, chunk_tokens);
    let per_kv: usize = 2 * (data_bytes + scale_bytes);
    let per_layer: usize = 2 * per_kv;
    num_attn_layers * per_layer
}

/// Byte offsets, within a quantized chunk, of the four regions of one layer's K
/// (`is_value == false`) or V: data, scales, residual data, residual scales.
/// `layer_attn_idx` counts attention layers only.
pub fn quantized_kv_offsets(
    config: &ModelConfig,
    chunk_tokens: usize,
    layer_attn_idx: usize,
    is_value: bool,
) -> (r: (usize, usize, usize, usize))
    requires
        config.num_kv_heads as nat * chunk_tokens as nat * config.head_dim as nat <= usize::MAX,
        (layer_attn_idx + 1) * quant_layer_region(config, chunk_tokens as nat) <= usize::MAX,
    ensures
        ({
            let base = quant_region_base(
                config,
                chunk_tokens as nat,
                layer_attn_idx as nat,
                is_value,
            );
            let data = quant_data_bytes(config, chunk_tokens as nat);
            let scale = quant_scale_bytes(config);
            &&& r.0 == base
            &&& r.1 == base + data
            &&& r.2 == base + data + scale
            &&& r.3 == base + 2 * data + scale
        }),
{
    proof {
        lemma_quant_pieces(config, chunk_tokens as nat);
        let region = quant_layer_region(config, chunk_tokens as nat) as int;
        assert((layer_attn_idx + 1) * region == layer_attn_idx * region + region)
            by (nonlinear_arith);
        assert(layer_attn_idx * region >= 0) by (nonlinear_arith)
            requires
                region >= 0,
        ;
    }
    let (data_bytes, scale_bytes): (usize, usize) = quant_piece_bytes(config, chunk_tokens);
    let per_kv: usize = 2 * (data_bytes + scale_bytes);
    let per_layer: usize = 2 * per_kv;
    let layer_base: usize = layer_attn_idx * per_layer;
    let base: usize = if is_value {
        layer_base + per_kv
    } else {
        layer_base
    };
    (
        base,
        base + data_bytes,
        base + data_bytes + scale_bytes,
        base + 2 * data_bytes + scale_bytes,
    )
}

/// Recurrent (GDN) state bytes per checkpoint slot.
pub fn recurrent_state_bytes(config: &ModelConfig) -> (bytes: usize)
    requires
        config.linear_num_heads as nat * config.linear_key_head_dim as nat
            * config.linear_value_head_dim as nat <= usize::MAX,
        recurrent_bytes_of(config) <= usize::MAX,
    ensures
        bytes == recurrent_bytes_of(config),
{
    let num_gdn_layers: usize = config.num_recurrent_layers();
    let dims = [
        config.linear_num_heads,
        config.linear_key_head_dim,
        config.linear_value_head_dim,
    ];
    proof {
        lemma_product3(
            config.linear_num_heads,
            config.linear_key_head_dim,
            config.linear_value_head_dim,
        );
        assert(dims@ =~= seq![
            config.linear_num_heads,
            config.linear_key_head_dim,
            config.linear_value_head_dim,
        ]);
    }
    let floats_per_layer: usize = product(&dims);
    let total = [num_gdn_layers, floats_per_layer, 4usize];
    proof {
        lemma_product3(num_gdn_layers, floats_per_layer, 4usize);
        assert(total@ =~= seq![num_gdn_layers, floats_per_layer, 4usize]);
    }
    product(&total)
}

/// The four regions of a layer's K or V follow one another without gap or
/// overlap and end inside the chunk.
pub proof fn law_quantized_regions_tile_chunk(
    config: &ModelConfig,
    chunk_tokens: nat,
    layer: nat,
    is_value: bool,
)
    requires
        layer < config.attn_layers(),
    ensures
        ({
            let base = quant_region_base(config, chunk_tokens, layer, is_value);
            let end = base + 2 * quant_data_bytes(config, chunk_tokens) + 2 * quant_scale_bytes(
                config,
            );
            &&& end == base + quant_kv_region(config, chunk_tokens)
            &&& end <= quant_chunk_bytes_of(config, chunk_tokens)
            &&& is_value ==> end == quant_region_base(config, chunk_tokens, layer + 1, false)
            &&& !is_value ==> end == quant_region_base(config, chunk_tokens, layer, true)
        }),
{
    let region = quant_layer_region(config, chunk_tokens);
    let n = config.attn_layers();
    assert((layer + 1) * region == layer * region + region) by (nonlinear_arith);
    assert((layer + 1) * region <= n * region) by (nonlinear_arith)
        requires
            layer + 1 <= n,
            region >= 0,
    ;
}

/// Regions of different layers, or of K and V of one layer, never overlap.
pub proof fn law_quantized_regions_disjoint(
    config: &ModelConfig,
    chunk_tokens: nat,
    layer_a: nat,
    value_a: bool,
    layer_b: nat,
    value_b: bool,
)
    requires
        (layer_a, value_a) != (layer_b, value_b),
    ensures
        ({
            let a = quant_region_base(config, chunk_tokens, layer_a, value_a);
            let b = quant_region_base(config, chunk_tokens, layer_b, value_b);
            let size = quant_kv_region(config, chunk_tokens);
            a + size <= b || b + size <= a
        }),
{
    let region = quant_layer_region(config, chunk_tokens);
    if layer_a < layer_b {
        assert((layer_a + 1) * region <= layer_b * region) by (nonlinear_arith)
            requires
                layer_a + 1 <= layer_b,
                region >= 0,
        ;
        assert((layer_a + 1) * region == layer_a * region + region) by (nonlinear_arith);
    } else if layer_b < layer_a {
        assert((layer_b + 1) * region <= layer_a * region) by (nonlinear_arith)
            requires
                layer_b + 1 <= layer_a,
                region >= 0,
        ;
        assert((layer_b + 1) * region == layer_b * region + region) by (nonlinear_arith);
    }
}

/// At 64 tokens per chunk, 32 quantized chunks take exactly the room of 9
/// unquantized ones (a 3.56x reduction).
pub proof fn law_quantized_reduction(config: &ModelConfig)
    ensures
        9 * chunk_bytes_of(config, 64) == 32 * quant_chunk_bytes_of(config, 64),
{
    let n = config.attn_layers();
    let nkh = config.num_kv_heads as nat;
    let hd = config.head_dim as nat;
    let kv = nkh * hd;
    assert(nkh * 64 * hd == 64 * kv) by (nonlinear_arith)
        requires
            kv == nkh * hd,
    ;
    assert(quant_data_bytes(config, 64) == 32 * kv);
    assert(quant_layer_region(config, 64) == 144 * kv);
    assert(n * 2 * 64 * kv * 4 == 512 * (n * kv)) by (nonlinear_arith);
    assert(n * (144 * kv) == 144 * (n * kv)) by (nonlinear_arith);
}

} // verus!
