//! What an attention layer computes for a token.

use vstd::prelude::*;
use crate::arith;
use crate::config::ModelConfig;
use crate::model::attention_forward;
use crate::model::kv_layout;
use crate::model::kv_meaning;
use crate::model::mixer_meaning;
use crate::model::mixer_meaning::{Attending, Memory, Mixing, Plane, Rotation};
use crate::model::moe_meaning;
use crate::model::moe_meaning::Norm;
use crate::ops;
use crate::ops::{Buf, Loc, Op, Weight, CHUNK_TOKENS};

verus! {

/// Elements of all query heads.
pub open spec fn q_width(config: &ModelConfig) -> nat {
    config.num_q_heads as nat * config.head_dim as nat
}

/// Elements of all key heads, and of all value heads.
pub open spec fn kv_width(config: &ModelConfig) -> nat {
    config.num_kv_heads as nat * config.head_dim as nat
}

/// Row of the query projection that gives element `j` of the queries: where queries have
/// output gates, every head's gate follows its queries.
pub open spec fn query_row(config: &ModelConfig, j: int) -> int {
    let dim = config.head_dim as int;
    if config.has_output_gate {
        (j / dim) * (2 * dim) + j % dim
    } else {
        j
    }
}

/// Row of the query projection that gives element `j` of the output gates.
pub open spec fn gate_row(config: &ModelConfig, j: int) -> int {
    let dim = config.head_dim as int;
    (j / dim) * (2 * dim) + dim + j % dim
}

/// The projected queries of the normalised hidden state `n`.
pub open spec fn projected<V>(a: Mixing<V>, config: &ModelConfig, layer: usize, n: Seq<V>) -> Seq<V> {
    Seq::new(
        q_width(config),
        |j: int| (a.product)(ops::whole(Weight::QGate { layer }), n, query_row(config, j)),
    )
}

/// Queries, normalised: each head with the same weight where that is one head long, all
/// heads as one vector otherwise.
pub open spec fn normalised<V>(
    a: Mixing<V>,
    config: &ModelConfig,
    layer: usize,
    norm_len: usize,
    q: Seq<V>,
) -> Seq<V> {
    let dim = config.head_dim as nat;
    let weight = Weight::QNorm { layer };
    let eps = config.rms_norm_eps;
    if !config.has_qk_norm {
        q
    } else if norm_len == config.head_dim {
        Seq::new(
            q_width(config),
            |j: int|
                (a.head_norm)(
                    mixer_meaning::head(q, j / dim as int, dim),
                    weight,
                    eps,
                    j % dim as int,
                ),
        )
    } else {
        let how = Norm { weight, eps, one_plus_w: config.rms_norm_one_plus_w };
        Seq::new(q_width(config), |j: int| (a.norm)(q, how, j))
    }
}

/// Queries, rotated to the token's position in models that rotate them.
pub open spec fn turned<V>(
    a: Mixing<V>,
    config: &ModelConfig,
    position: u32,
    q: Seq<V>,
) -> Seq<V> {
    let dim = config.head_dim as nat;
    if config.use_rope {
        let how = Rotation {
            head_dim: config.head_dim,
            rope_dim: config.rope_dim,
            sections: config.mrope_section,
        };
        Seq::new(
            q_width(config),
            |j: int|
                (a.rotated)(
                    mixer_meaning::head(q, j / dim as int, dim),
                    how,
                    position,
                    j % dim as int,
                ),
        )
    } else {
        q
    }
}

/// What the query heads gather from keys and values.
pub open spec fn gathered<V>(
    a: Mixing<V>,
    config: &ModelConfig,
    q: Seq<V>,
    keys: Seq<Plane<V>>,
    values: Seq<Plane<V>>,
    how: Attending,
) -> Seq<V> {
    let dim = config.head_dim as nat;
    Seq::new(
        q_width(config),
        |j: int|
            (a.attended)(
                j / dim as int,
                mixer_meaning::head(q, j / dim as int, dim),
                keys,
                values,
                how,
                j % dim as int,
            ),
    )
}

/// What is gathered, passed through the output gates in models that have them.
pub open spec fn released<V>(
    a: Mixing<V>,
    config: &ModelConfig,
    layer: usize,
    n: Seq<V>,
    out: Seq<V>,
) -> Seq<V> {
    if config.has_output_gate {
        Seq::new(
            q_width(config),
            |j: int|
                (a.gated)(
                    out[j],
                    (a.product)(ops::whole(Weight::QGate { layer }), n, gate_row(config, j)),
                ),
        )
    } else {
        out
    }
}

/// How the layer attends at `position`: over all tokens up to it, with keys normalised
/// as they are read where the key norm is one head long.
pub open spec fn attending(
    config: &ModelConfig,
    layer: usize,
    position: u32,
    norm_len: usize,
) -> Attending {
    Attending {
        q_heads: config.num_q_heads,
        kv_heads: config.num_kv_heads,
        head_dim: config.head_dim,
        seq_len: (position + 1) as usize,
        rope_dim: config.rope_dim,
        k_norm: if config.has_qk_norm && norm_len == config.head_dim {
            Some(Weight::KNorm { layer })
        } else {
            None
        },
        rotary: None,
    }
}

/// The elements that the layer may write.
pub open spec fn writes(config: &ModelConfig, attn: nat, b: Buf, i: int) -> bool {
    let hs = config.hidden_size as int;
    let q = q_width(config) as int;
    let kv = kv_width(config) as int;
    if b == (Buf::KvChunk { gpu: 0 }) {
        kv_meaning::keys_at(config, attn) <= i < kv_meaning::values_at(config, attn)
            + kv_meaning::plane_len(config)
    } else {
        0 <= i < match b {
            Buf::Normed => vstd::math::max(
                hs,
                if config.has_qk_norm {
                    vstd::math::max(q, kv)
                } else {
                    0
                },
            ),
            Buf::QGateAttn => if config.has_output_gate {
                2 * q
            } else {
                q
            },
            Buf::QAttn => q,
            Buf::GateAttn => if config.has_output_gate {
                q
            } else {
                0
            },
            Buf::KAttn => kv,
            Buf::VAttn => kv,
            Buf::AttnOut => q,
            Buf::GatedOut => q,
            Buf::OutProj => hs,
            Buf::Residual => hs,
            Buf::Hidden => hs,
            _ => 0,
        }
    }
}

// ---- the parts of the layer ----

proof fn lemma_project<V>(a: Mixing<V>, s: Memory<V>, config: &ModelConfig, layer: usize, attn: nat)
    requires
        attention_forward::dims_fit(config),
    ensures
        ({
            let n = mixer_meaning::normed(a, config, layer, mixer_meaning::hidden(s, config));
            let t = mixer_meaning::run(a, s, attention_forward::project_ops(config, layer));
            let row = |w: Weight, i: int| (a.product)(ops::whole(w), n, i);
            let rows = if config.has_output_gate {
                2 * q_width(config)
            } else {
                q_width(config)
            };
            &&& forall|i: int|
                0 <= i < rows ==> #[trigger] (t.value)(Buf::QGateAttn, i) == row(
                    Weight::QGate { layer },
                    i,
                )
            &&& forall|i: int|
                0 <= i < kv_width(config) ==> #[trigger] (t.value)(Buf::KAttn, i) == row(
                    Weight::K { layer },
                    i,
                )
            &&& forall|i: int|
                0 <= i < kv_width(config) ==> #[trigger] (t.value)(Buf::VAttn, i) == row(
                    Weight::V { layer },
                    i,
                )
            &&& forall|b: Buf, i: int|
                !writes(config, attn, b, i) || b is KvChunk || b == Buf::Hidden ==> #[trigger] (
                t.value)(b, i) == (s.value)(b, i)
            &&& t.past == s.past
        }),
{
    let l = attention_forward::project_ops(config, layer);
    let n = mixer_meaning::normed(a, config, layer, mixer_meaning::hidden(s, config));
    let hs = config.hidden_size as nat;
    let from = ops::start(Buf::Normed);
    reveal_with_fuel(mixer_meaning::after, 5);
    let s1 = mixer_meaning::step(a, s, l[0]);
    let s2 = mixer_meaning::step(a, s1, l[1]);
    let s3 = mixer_meaning::step(a, s2, l[2]);
    let s4 = mixer_meaning::step(a, s3, l[3]);
    assert(mixer_meaning::run(a, s, l) == s4);
    assert(mixer_meaning::vector(s, ops::start(Buf::Hidden), hs) =~= mixer_meaning::hidden(
        s,
        config,
    ));
    assert(mixer_meaning::vector(s1, from, hs) =~= n);
    assert(mixer_meaning::vector(s2, from, hs) =~= n);
    assert(mixer_meaning::vector(s3, from, hs) =~= n);
    assert(q_width(config) * 1 == q_width(config));
}

/// Of `n` interleaved heads, queries and gates are in their own buffers.
spec fn apart<V>(s: Memory<V>, t: Memory<V>, dim: int, n: int) -> bool {
    &&& forall|h: int, i: int|
        0 <= h < n && 0 <= i < dim ==> #[trigger] (t.value)(Buf::QAttn, h * dim + i) == (s.value)(
            Buf::QGateAttn,
            h * (2 * dim) + i,
        )
    &&& forall|h: int, i: int|
        0 <= h < n && 0 <= i < dim ==> #[trigger] (t.value)(Buf::GateAttn, h * dim + i) == (
        s.value)(Buf::QGateAttn, h * (2 * dim) + dim + i)
    &&& forall|b: Buf, x: int|
        !((b == Buf::QAttn || b == Buf::GateAttn) && 0 <= x < n * dim) ==> #[trigger] (t.value)(
            b,
            x,
        ) == (s.value)(b, x)
    &&& t.past == s.past
    &&& t.position == s.position
}

proof fn lemma_split_heads<V>(a: Mixing<V>, s: Memory<V>, config: &ModelConfig, heads: nat)
    requires
        attention_forward::dims_fit(config),
        config.has_output_gate,
        heads <= config.num_q_heads,
    ensures
        apart(
            s,
            mixer_meaning::run(a, s, attention_forward::split_heads(config, heads)),
            config.head_dim as int,
            heads as int,
        ),
    decreases heads,
{
    let dim = config.head_dim as int;
    if heads > 0 {
        let g = (heads - 1) as nat;
        lemma_split_heads(a, s, config, g);
        let l = attention_forward::split_heads(config, heads);
        let before = attention_forward::split_heads(config, g);
        let last = seq![l[l.len() - 2], l[l.len() - 1]];
        assert(l =~= before + last);
        mixer_meaning::lemma_run_joined(a, s, before, last);
        let s1 = mixer_meaning::run(a, s, before);
        mixer_meaning::lemma_run_two(a, s1, last[0], last[1]);
        let s2 = mixer_meaning::step(a, s1, last[0]);
        let s3 = mixer_meaning::step(a, s2, last[1]);
        arith::lemma_scaled_index(g as int, config.num_q_heads as int, dim);
        assert(g * dim * 2 == g * (2 * dim)) by (nonlinear_arith);
        assert(g * dim + dim == heads * dim) by (nonlinear_arith)
            requires
                g + 1 == heads,
        ;
        assert forall|h: int, i: int| 0 <= h < heads && 0 <= i < dim implies #[trigger] (s3.value)(
            Buf::QAttn,
            h * dim + i,
        ) == (s.value)(Buf::QGateAttn, h * (2 * dim) + i) by {
            moe_meaning::lemma_rows_apart(h, g as int, dim, i);
        }
        assert forall|h: int, i: int| 0 <= h < heads && 0 <= i < dim implies #[trigger] (s3.value)(
            Buf::GateAttn,
            h * dim + i,
        ) == (s.value)(Buf::QGateAttn, h * (2 * dim) + dim + i) by {
            moe_meaning::lemma_rows_apart(h, g as int, dim, i);
        }
    } else {
        assert(0 * dim == 0);
    }
}

/// Place of an element in a vector of heads.
pub proof fn lemma_place(j: int, heads: int, dim: int)
    requires
        0 <= j < heads * dim,
        0 <= heads,
        0 <= dim,
    ensures
        0 < dim,
        0 <= j / dim < heads,
        0 <= j % dim < dim,
        j == (j / dim) * dim + j % dim,
{
    assert(0 < dim) by (nonlinear_arith)
        requires
            0 <= j < heads * dim,
            0 <= heads,
            0 <= dim,
    ;
    vstd::arithmetic::div_mod::lemma_fundamental_div_mod(j, dim);
    vstd::arithmetic::div_mod::lemma_mod_bound(j, dim);
    vstd::arithmetic::div_mod::lemma_div_pos_is_pos(j, dim);
    assert(heads * dim == dim * heads && dim * (j / dim) == (j / dim) * dim) by (nonlinear_arith);
    vstd::arithmetic::div_mod::lemma_multiply_divide_lt(j, dim, heads);
}

proof fn lemma_split<V>(a: Mixing<V>, s: Memory<V>, config: &ModelConfig, attn: nat)
    requires
        attention_forward::dims_fit(config),
    ensures
        ({
            let t = mixer_meaning::run(a, s, attention_forward::split_ops(config));
            &&& forall|j: int|
                0 <= j < q_width(config) ==> #[trigger] (t.value)(Buf::QAttn, j) == (s.value)(
                    Buf::QGateAttn,
                    query_row(config, j),
                )
            &&& config.has_output_gate ==> forall|j: int|
                0 <= j < q_width(config) ==> #[trigger] (t.value)(Buf::GateAttn, j) == (s.value)(
                    Buf::QGateAttn,
                    gate_row(config, j),
                )
            &&& forall|b: Buf, x: int|
                !writes(config, attn, b, x) || !(b == Buf::QAttn || b == Buf::GateAttn)
                    ==> #[trigger] (t.value)(b, x) == (s.value)(b, x)
            &&& t.past == s.past
        }),
{
    let l = attention_forward::split_ops(config);
    let t = mixer_meaning::run(a, s, l);
    let dim = config.head_dim as int;
    if config.has_output_gate {
        lemma_split_heads(a, s, config, config.num_q_heads as nat);
        assert forall|j: int| 0 <= j < q_width(config) implies #[trigger] (t.value)(Buf::QAttn, j)
            == (s.value)(Buf::QGateAttn, query_row(config, j)) by {
            lemma_place(j, config.num_q_heads as int, dim);
            assert((t.value)(Buf::QAttn, (j / dim) * dim + j % dim) == (s.value)(
                Buf::QGateAttn,
                (j / dim) * (2 * dim) + j % dim,
            ));
        }
        assert forall|j: int| 0 <= j < q_width(config) implies #[trigger] (t.value)(
            Buf::GateAttn,
            j,
        ) == (s.value)(Buf::QGateAttn, gate_row(config, j)) by {
            lemma_place(j, config.num_q_heads as int, dim);
            assert((t.value)(Buf::GateAttn, (j / dim) * dim + j % dim) == (s.value)(
                Buf::QGateAttn,
                (j / dim) * (2 * dim) + dim + j % dim,
            ));
        }
    } else {
        assert(q_width(config) * 1 == q_width(config));
        mixer_meaning::lemma_run_one(a, s, l[0]);
        assert(l =~= seq![l[0]]);
    }
}

proof fn lemma_same_copies(config: &ModelConfig, attn: nat, row: nat, heads: nat)
    requires
        kv_layout::chunk_fits(config),
        attn < config.attn_layers(),
    ensures
        attention_forward::kv_write_ops(config, attn, row, heads) == kv_meaning::copies(
            config,
            0,
            attn,
            row,
            Buf::KAttn,
            Buf::VAttn,
            heads,
        ),
    decreases heads,
{
    if heads > 0 {
        let h = (heads - 1) as nat;
        let hd = config.head_dim as int;
        lemma_same_copies(config, attn, row, h);
        kv_meaning::lemma_planes_fit(config, attn);
        assert((h * (64 * hd) + row * hd) * 4 == ((h * 64 + row) * hd) * 4) by (nonlinear_arith);
        assert(attention_forward::kv_write_ops(config, attn, row, heads) =~= kv_meaning::copies(
            config,
            0,
            attn,
            row,
            Buf::KAttn,
            Buf::VAttn,
            heads,
        ));
    }
}

/// Queries are replaced, and besides only keys and scratch.
spec fn requeried<V>(
    s: Memory<V>,
    t: Memory<V>,
    config: &ModelConfig,
    attn: nat,
    q: Seq<V>,
) -> bool {
    &&& mixer_meaning::vector(t, ops::start(Buf::QAttn), q_width(config)) == q
    &&& forall|b: Buf, x: int|
        !writes(config, attn, b, x) || !(b == Buf::QAttn || b == Buf::KAttn || b == Buf::Normed)
            ==> #[trigger] (t.value)(b, x) == (s.value)(b, x)
    &&& t.past == s.past
}

proof fn lemma_qk_norm<V>(
    a: Mixing<V>,
    s: Memory<V>,
    config: &ModelConfig,
    layer: usize,
    attn: nat,
    norm_len: usize,
    q: Seq<V>,
)
    requires
        attention_forward::dims_fit(config),
        q == mixer_meaning::vector(s, ops::start(Buf::QAttn), q_width(config)),
    ensures
        requeried(
            s,
            mixer_meaning::run(a, s, attention_forward::qk_norm_ops(config, layer, norm_len)),
            config,
            attn,
            normalised(a, config, layer, norm_len, q),
        ),
{
    let l = attention_forward::qk_norm_ops(config, layer, norm_len);
    let len = q_width(config);
    let wanted = normalised(a, config, layer, norm_len, q);
    let at = ops::start(Buf::QAttn);
    let m = attention_forward::q_mult(config);
    assert(len <= len * m) by (nonlinear_arith)
        requires
            m >= 1,
            len >= 0,
    ;
    if config.has_qk_norm {
        if norm_len == config.head_dim {
            assert(l =~= seq![l[0]]);
            mixer_meaning::lemma_run_one(a, s, l[0]);
            assert(mixer_meaning::vector(mixer_meaning::step(a, s, l[0]), at, len) =~= wanted);
        } else {
            reveal_with_fuel(mixer_meaning::after, 5);
            let s1 = mixer_meaning::step(a, s, l[0]);
            let s2 = mixer_meaning::step(a, s1, l[1]);
            let s3 = mixer_meaning::step(a, s2, l[2]);
            let s4 = mixer_meaning::step(a, s3, l[3]);
            assert(mixer_meaning::run(a, s, l) == s4);
            assert(mixer_meaning::vector(s1, ops::start(Buf::Normed), len) =~= wanted);
            assert(mixer_meaning::vector(s4, at, len) =~= wanted);
        }
    }
}

proof fn lemma_rope<V>(
    a: Mixing<V>,
    s: Memory<V>,
    config: &ModelConfig,
    attn: nat,
    position: u32,
    q: Seq<V>,
)
    requires
        q == mixer_meaning::vector(s, ops::start(Buf::QAttn), q_width(config)),
    ensures
        requeried(
            s,
            mixer_meaning::run(a, s, attention_forward::rope_ops(config, position)),
            config,
            attn,
            turned(a, config, position, q),
        ),
{
    let l = attention_forward::rope_ops(config, position);
    let len = q_width(config);
    if config.use_rope {
        mixer_meaning::lemma_run_two(a, s, l[0], l[1]);
        assert(l =~= seq![l[0], l[1]]);
        let s1 = mixer_meaning::step(a, s, l[0]);
        let s2 = mixer_meaning::step(a, s1, l[1]);
        let at = ops::start(Buf::QAttn);
        assert(mixer_meaning::vector(s1, at, len) =~= q);
        assert(mixer_meaning::vector(s2, at, len) =~= turned(a, config, position, q));
    }
}

proof fn lemma_attend<V>(
    a: Mixing<V>,
    s: Memory<V>,
    config: &ModelConfig,
    layer: usize,
    attn: nat,
    position: u32,
    norm_len: usize,
    n: Seq<V>,
    q: Seq<V>,
)
    requires
        attention_forward::dims_fit(config),
        attn < config.attn_layers(),
        position < u32::MAX,
        q == mixer_meaning::vector(s, ops::start(Buf::QAttn), q_width(config)),
        config.has_output_gate ==> forall|j: int|
            0 <= j < q_width(config) ==> #[trigger] (s.value)(Buf::GateAttn, j) == (a.product)(
                ops::whole(Weight::QGate { layer }),
                n,
                gate_row(config, j),
            ),
    ensures
        ({
            let out = gathered(
                a,
                config,
                q,
                kv_meaning::planes(s, config, 0, kv_meaning::keys_at(config, attn)),
                kv_meaning::planes(s, config, 0, kv_meaning::values_at(config, attn)),
                attending(config, layer, position, norm_len),
            );
            let t = mixer_meaning::run(
                a,
                s,
                attention_forward::attend_ops(config, layer, attn, position, norm_len),
            );
            &&& forall|i: int|
                0 <= i < config.hidden_size ==> #[trigger] (t.value)(Buf::Hidden, i) == (a.sum)(
                    (a.product)(
                        ops::whole(Weight::O { layer }),
                        released(a, config, layer, n, out),
                        i,
                    ),
                    (s.value)(Buf::Hidden, i),
                )
            &&& forall|b: Buf, x: int|
                !writes(config, attn, b, x) || b is KvChunk ==> #[trigger] (t.value)(b, x) == (
                s.value)(b, x)
            &&& t.past == s.past
        }),
{
    let l = attention_forward::attend_ops(config, layer, attn, position, norm_len);
    let len = q_width(config);
    let m = attention_forward::q_mult(config);
    assert(len <= len * m) by (nonlinear_arith)
        requires
            m >= 1,
            len >= 0,
    ;
    kv_meaning::lemma_planes_fit(config, attn);
    let keys = kv_meaning::planes(s, config, 0, kv_meaning::keys_at(config, attn));
    let values = kv_meaning::planes(s, config, 0, kv_meaning::values_at(config, attn));
    let out = gathered(a, config, q, keys, values, attending(config, layer, position, norm_len));
    let done = released(a, config, layer, n, out);
    reveal_with_fuel(mixer_meaning::after, 6);
    let s1 = mixer_meaning::step(a, s, l[0]);
    let s2 = mixer_meaning::step(a, s1, l[1]);
    let s3 = mixer_meaning::step(a, s2, l[2]);
    let s4 = mixer_meaning::step(a, s3, l[3]);
    assert(mixer_meaning::vector(s1, ops::start(Buf::AttnOut), len) =~= out);
    if config.has_output_gate {
        let s5 = mixer_meaning::step(a, s4, l[4]);
        assert(mixer_meaning::run(a, s, l) == s5);
        assert forall|j: int| 0 <= j < len implies (s1.value)(Buf::AttnOut, j) == out[j] by {
            assert(mixer_meaning::vector(s1, ops::start(Buf::AttnOut), len)[j] == out[j]);
        }
        assert(mixer_meaning::vector(s2, ops::start(Buf::GatedOut), len) =~= done);
    } else {
        assert(mixer_meaning::run(a, s, l) == s4);
        assert(mixer_meaning::vector(s1, ops::start(Buf::AttnOut), len) =~= done);
    }
}

/// The layer adds to the token's hidden state what its queries gather from the keys and
/// values of all tokens up to it, its own among them: with the layer's key and value
/// weights projected, and stored in the token's row of the layer's planes, every head in
/// its own row. Nothing else but the layer's scratch is written.
pub proof fn law_attention_layer<V>(
    a: Mixing<V>,
    s: Memory<V>,
    config: &ModelConfig,
    layer: usize,
    attn: nat,
    position: u32,
    row: nat,
    norm_len: usize,
)
    requires
        attention_forward::dims_fit(config),
        attn < config.attn_layers(),
        position < u32::MAX,
        row < CHUNK_TOKENS,
    ensures
        ({
            let x = mixer_meaning::hidden(s, config);
            let n = mixer_meaning::normed(a, config, layer, x);
            let q = turned(
                a,
                config,
                position,
                normalised(a, config, layer, norm_len, projected(a, config, layer, n)),
            );
            let (kp, vp) = (kv_meaning::keys_at(config, attn), kv_meaning::values_at(config, attn));
            let k = mixer_meaning::times(a, Weight::K { layer }, n, kv_width(config));
            let v = mixer_meaning::times(a, Weight::V { layer }, n, kv_width(config));
            let keys = kv_meaning::stored(s, config, 0, kp, row as int, k);
            let values = kv_meaning::stored(s, config, 0, vp, row as int, v);
            let out = gathered(
                a,
                config,
                q,
                keys,
                values,
                attending(config, layer, position, norm_len),
            );
            let t = mixer_meaning::run(
                a,
                s,
                attention_forward::attention_ops(config, layer, attn, position, row, norm_len),
            );
            &&& forall|i: int|
                0 <= i < config.hidden_size ==> #[trigger] (t.value)(Buf::Hidden, i) == (a.sum)(
                    (a.product)(
                        ops::whole(Weight::O { layer }),
                        released(a, config, layer, n, out),
                        i,
                    ),
                    x[i],
                )
            &&& kv_meaning::planes(t, config, 0, kp) == keys
            &&& kv_meaning::planes(t, config, 0, vp) == values
            &&& forall|b: Buf, i: int|
                !writes(config, attn, b, i) ==> #[trigger] (t.value)(b, i) == (s.value)(b, i)
            &&& t.past == s.past
        }),
{
    let x = mixer_meaning::hidden(s, config);
    let n = mixer_meaning::normed(a, config, layer, x);
    let hd = config.head_dim as int;
    let (kp, vp) = (kv_meaning::keys_at(config, attn), kv_meaning::values_at(config, attn));
    let k = mixer_meaning::times(a, Weight::K { layer }, n, kv_width(config));
    let v = mixer_meaning::times(a, Weight::V { layer }, n, kv_width(config));
    let nkh = config.num_kv_heads as nat;
    let raw = projected(a, config, layer, n);
    let q1 = normalised(a, config, layer, norm_len, raw);
    let q2 = turned(a, config, position, q1);
    let l1 = attention_forward::project_ops(config, layer);
    let l2 = attention_forward::split_ops(config);
    let l3 = attention_forward::kv_write_ops(config, attn, row, nkh);
    let l4 = attention_forward::qk_norm_ops(config, layer, norm_len);
    let l5 = attention_forward::rope_ops(config, position);
    let l6 = attention_forward::attend_ops(config, layer, attn, position, norm_len);
    mixer_meaning::lemma_run_joined(a, s, l1 + l2 + l3 + l4 + l5, l6);
    mixer_meaning::lemma_run_joined(a, s, l1 + l2 + l3 + l4, l5);
    mixer_meaning::lemma_run_joined(a, s, l1 + l2 + l3, l4);
    mixer_meaning::lemma_run_joined(a, s, l1 + l2, l3);
    mixer_meaning::lemma_run_joined(a, s, l1, l2);
    let s1 = mixer_meaning::run(a, s, l1);
    let s2 = mixer_meaning::run(a, s1, l2);
    let s3 = mixer_meaning::run(a, s2, l3);
    let s4 = mixer_meaning::run(a, s3, l4);
    let s5 = mixer_meaning::run(a, s4, l5);
    let s6 = mixer_meaning::run(a, s5, l6);
    let at = ops::start(Buf::QAttn);
    kv_meaning::lemma_planes_fit(config, attn);
    lemma_project(a, s, config, layer, attn);
    lemma_split(a, s1, config, attn);
    lemma_queries(a, config, layer, n, s1, s2);
    lemma_same_copies(config, attn, row, nkh);
    kv_meaning::lemma_copies(a, s2, config, 0, attn, row, Buf::KAttn, Buf::VAttn, nkh);
    assert forall|h: int, r: int, i: int|
        0 <= h < nkh && 0 <= r < CHUNK_TOKENS && 0 <= i < hd implies #[trigger] kv_meaning::cell(
        s3,
        0,
        kp,
        hd,
        h,
        r,
        i,
    ) == if r == row {
        k[h * config.head_dim + i]
    } else {
        kv_meaning::cell(s, 0, kp, hd, h, r, i)
    } by {
        arith::lemma_scaled_index(h, nkh as int, hd);
    }
    assert forall|h: int, r: int, i: int|
        0 <= h < nkh && 0 <= r < CHUNK_TOKENS && 0 <= i < hd implies #[trigger] kv_meaning::cell(
        s3,
        0,
        vp,
        hd,
        h,
        r,
        i,
    ) == if r == row {
        v[h * config.head_dim + i]
    } else {
        kv_meaning::cell(s, 0, vp, hd, h, r, i)
    } by {
        arith::lemma_scaled_index(h, nkh as int, hd);
    }
    kv_meaning::lemma_planes_stored(s, s3, config, 0, kp, row, k);
    kv_meaning::lemma_planes_stored(s, s3, config, 0, vp, row, v);
    assert(mixer_meaning::vector(s3, at, q_width(config)) =~= mixer_meaning::vector(
        s2,
        at,
        q_width(config),
    ));
    lemma_qk_norm(a, s3, config, layer, attn, norm_len, raw);
    lemma_rope(a, s4, config, attn, position, q1);
    kv_meaning::lemma_planes_kept(s3, s5, config, 0, kp);
    kv_meaning::lemma_planes_kept(s3, s5, config, 0, vp);
    lemma_attend(a, s5, config, layer, attn, position, norm_len, n, q2);
    kv_meaning::lemma_planes_kept(s5, s6, config, 0, kp);
    kv_meaning::lemma_planes_kept(s5, s6, config, 0, vp);
}

/// The queries that are split off are the projected ones, and so are the gates.
proof fn lemma_queries<V>(
    a: Mixing<V>,
    config: &ModelConfig,
    layer: usize,
    n: Seq<V>,
    s: Memory<V>,
    t: Memory<V>,
)
    requires
        forall|i: int|
            0 <= i < (if config.has_output_gate {
                2 * q_width(config)
            } else {
                q_width(config)
            }) ==> #[trigger] (s.value)(Buf::QGateAttn, i) == (a.product)(
                ops::whole(Weight::QGate { layer }),
                n,
                i,
            ),
        forall|j: int|
            0 <= j < q_width(config) ==> #[trigger] (t.value)(Buf::QAttn, j) == (s.value)(
                Buf::QGateAttn,
                query_row(config, j),
            ),
        config.has_output_gate ==> forall|j: int|
            0 <= j < q_width(config) ==> #[trigger] (t.value)(Buf::GateAttn, j) == (s.value)(
                Buf::QGateAttn,
                gate_row(config, j),
            ),
    ensures
        mixer_meaning::vector(t, ops::start(Buf::QAttn), q_width(config)) == projected(
            a,
            config,
            layer,
            n,
        ),
        config.has_output_gate ==> forall|j: int|
            0 <= j < q_width(config) ==> #[trigger] (t.value)(Buf::GateAttn, j) == (a.product)(
                ops::whole(Weight::QGate { layer }),
                n,
                gate_row(config, j),
            ),
{
    let dim = config.head_dim as int;
    let heads = config.num_q_heads as int;
    assert forall|j: int| 0 <= j < q_width(config) implies {
        &&& 0 <= #[trigger] query_row(config, j)
        &&& !config.has_output_gate ==> query_row(config, j) < q_width(config)
        &&& config.has_output_gate ==> query_row(config, j) < 2 * q_width(config) && 0 <= gate_row(
            config,
            j,
        ) < 2 * q_width(config)
    } by {
        lemma_place(j, heads, dim);
        let h = j / dim;
        assert(0 <= h * (2 * dim) && h * (2 * dim) + 2 * dim <= 2 * (heads * dim))
            by (nonlinear_arith)
            requires
                0 <= h < heads,
                0 < dim,
        ;
    }
    assert forall|j: int| 0 <= j < q_width(config) && config.has_output_gate implies #[trigger] (
    t.value)(Buf::GateAttn, j) == (a.product)(
        ops::whole(Weight::QGate { layer }),
        n,
        gate_row(config, j),
    ) by {
        let r = query_row(config, j);
    }
    assert(mixer_meaning::vector(t, ops::start(Buf::QAttn), q_width(config)) =~= projected(
        a,
        config,
        layer,
        n,
    ));
}

} // verus!
