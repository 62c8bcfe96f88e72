//! What attention shared between GPUs computes.

use vstd::prelude::*;
use crate::arith;
use crate::config;
use crate::config::{LayerType, ModelConfig};
use crate::model::attention_forward;
use crate::model::attention_meaning;
use crate::model::head_parallel;
use crate::model::head_parallel::HeadParallelPlan;
use crate::model::kv_meaning;
use crate::model::load::distributed;
use crate::model::load::distributed::AttnFormats;
use crate::model::mixer_meaning;
use crate::model::mixer_meaning::{Attending, Memory, Mixing, Plane};
use crate::model::moe_meaning;
use crate::multi_gpu::WeightSlice;
use crate::ops;
use crate::ops::{Buf, Inst, Loc, Op, Rotary, Signal, SignalSlot, WLoc, Weight, CHUNK_TOKENS};

verus! {

/// One attention step on several GPUs.
pub struct Shared {
    pub num_gpus: usize,
    pub layer: usize,
    pub attn: usize,
    pub position: u32,
    /// Whether the GPUs project queries, keys and values themselves.
    pub distributed: bool,
}

/// The step is one of attention layer number `attn`, and the heads can be shared out.
pub open spec fn possible(config: &ModelConfig, c: Shared) -> bool {
    &&& head_parallel::split_ok(config, c.num_gpus as nat)
    &&& c.position < u32::MAX
    &&& c.layer < config.layers@.len()
    &&& config.layers@[c.layer as int].layer_type == LayerType::Attention
    &&& config::count_layers(config.layers@.take(c.layer as int), LayerType::Attention) == c.attn
}

/// Elements of the query heads of one GPU.
pub open spec fn share(config: &ModelConfig, c: Shared) -> int {
    (config.num_q_heads as int / c.num_gpus as int) * config.head_dim
}

/// Query rows per query element.
pub open spec fn folds(config: &ModelConfig) -> int {
    if config.has_output_gate {
        2
    } else {
        1
    }
}

/// A worker's weights are its part of the layer's: its own rows of the query projection,
/// and all rows of the key and value projections.
pub open spec fn has_slices<V>(a: Mixing<V>, config: &ModelConfig, c: Shared, gpu: usize) -> bool {
    let (layer, attn) = (c.layer, c.attn);
    let rows = share(config, c) * folds(config);
    &&& forall|x: Seq<V>, i: int|
        0 <= i < rows ==> #[trigger] (a.product)(
            ops::whole(Weight::WorkerQGate { gpu, attn }),
            x,
            i,
        ) == (a.product)(ops::whole(Weight::QGate { layer }), x, gpu * rows + i)
    &&& forall|x: Seq<V>, i: int|
        0 <= i < attention_meaning::kv_width(config) ==> #[trigger] (a.product)(
            ops::whole(Weight::WorkerK { gpu, attn }),
            x,
            i,
        ) == (a.product)(ops::whole(Weight::K { layer }), x, i)
    &&& forall|x: Seq<V>, i: int|
        0 <= i < attention_meaning::kv_width(config) ==> #[trigger] (a.product)(
            ops::whole(Weight::WorkerV { gpu, attn }),
            x,
            i,
        ) == (a.product)(ops::whole(Weight::V { layer }), x, i)
}

/// The normalised hidden state that GPU 0 hands out.
pub open spec fn handed_out<V>(s: Memory<V>, config: &ModelConfig) -> Seq<V> {
    Seq::new(config.hidden_size as nat, |i: int| (s.value)(Buf::NormedStage, i))
}

/// The queries of all heads: projected from what GPU 0 hands out, or projected before.
pub open spec fn queries<V>(a: Mixing<V>, s: Memory<V>, config: &ModelConfig, c: Shared) -> Seq<V> {
    if c.distributed {
        attention_meaning::projected(a, config, c.layer, handed_out(s, config))
    } else {
        Seq::new(
            attention_meaning::q_width(config),
            |j: int| (s.value)(Buf::QAttn, j),
        )
    }
}

/// The token's keys.
pub open spec fn token_keys<V>(
    a: Mixing<V>,
    s: Memory<V>,
    config: &ModelConfig,
    c: Shared,
) -> Seq<V> {
    let len = attention_meaning::kv_width(config);
    if c.distributed {
        mixer_meaning::times(a, Weight::K { layer: c.layer }, handed_out(s, config), len)
    } else {
        Seq::new(len, |j: int| (s.value)(Buf::KAttn, j))
    }
}

/// The token's values.
pub open spec fn token_values<V>(
    a: Mixing<V>,
    s: Memory<V>,
    config: &ModelConfig,
    c: Shared,
) -> Seq<V> {
    let len = attention_meaning::kv_width(config);
    if c.distributed {
        mixer_meaning::times(a, Weight::V { layer: c.layer }, handed_out(s, config), len)
    } else {
        Seq::new(len, |j: int| (s.value)(Buf::VAttn, j))
    }
}

/// A GPU's keys with those of the token.
pub open spec fn all_keys<V>(
    a: Mixing<V>,
    s: Memory<V>,
    config: &ModelConfig,
    c: Shared,
    gpu: usize,
    row: int,
) -> Seq<Plane<V>> {
    kv_meaning::stored(
        s,
        config,
        gpu,
        kv_meaning::keys_at(config, c.attn as nat),
        row,
        token_keys(a, s, config, c),
    )
}

/// A GPU's values with those of the token.
pub open spec fn all_values<V>(
    a: Mixing<V>,
    s: Memory<V>,
    config: &ModelConfig,
    c: Shared,
    gpu: usize,
    row: int,
) -> Seq<Plane<V>> {
    kv_meaning::stored(
        s,
        config,
        gpu,
        kv_meaning::values_at(config, c.attn as nat),
        row,
        token_values(a, s, config, c),
    )
}

/// How the step attends: over all tokens up to the position; queries and keys are
/// normalised and rotated as they are read.
pub open spec fn attending(config: &ModelConfig, c: Shared) -> Attending {
    Attending {
        q_heads: config.num_q_heads,
        kv_heads: config.num_kv_heads,
        head_dim: config.head_dim,
        seq_len: (c.position + 1) as usize,
        rope_dim: config.rope_dim,
        k_norm: if config.has_qk_norm {
            Some(Weight::KNorm { layer: c.layer })
        } else {
            None
        },
        rotary: Some(
            Rotary {
                eps: config.rms_norm_eps,
                section0: config.mrope_section.0,
                section1: config.mrope_section.1,
            },
        ),
    }
}

/// Element `j` of what all query heads gather when a GPU with these keys and values
/// attends.
pub open spec fn attended<V>(
    a: Mixing<V>,
    s: Memory<V>,
    config: &ModelConfig,
    c: Shared,
    keys: Seq<Plane<V>>,
    values: Seq<Plane<V>>,
    j: int,
) -> V {
    attention_meaning::gathered(
        a,
        config,
        queries(a, s, config, c),
        keys,
        values,
        attending(config, c),
    )[j]
}

/// The elements that a GPU's batch may write.
pub open spec fn writes(config: &ModelConfig, c: Shared, g: nat, b: Buf, i: int) -> bool {
    let part = share(config, c);
    let kv = attention_meaning::kv_width(config) as int;
    let chunk = kv_meaning::keys_at(config, c.attn as nat) <= i < kv_meaning::values_at(
        config,
        c.attn as nat,
    ) + kv_meaning::plane_len(config);
    match b {
        Buf::KvChunk { gpu } => gpu == g && chunk,
        Buf::AttnOut => g == 0 && 0 <= i < part,
        Buf::WorkerAttnOut { gpu } => g > 0 && gpu == g && 0 <= i < part,
        Buf::WorkerQ { gpu } => g > 0 && gpu == g && 0 <= i < part,
        Buf::QAttn => c.distributed && g == 0 && 0 <= i < part,
        Buf::QGateAttn => c.distributed && g == 0 && 0 <= i < part * folds(config),
        Buf::GateAttn => c.distributed && config.has_output_gate && g == 0 && 0 <= i < part,
        Buf::KAttn => c.distributed && g == 0 && 0 <= i < kv,
        Buf::VAttn => c.distributed && g == 0 && 0 <= i < kv,
        Buf::WorkerNormed { gpu } => c.distributed && g > 0 && gpu == g && 0 <= i
            < config.hidden_size,
        Buf::WorkerQGate { gpu } => c.distributed && g > 0 && gpu == g && 0 <= i < part * folds(
            config,
        ),
        Buf::WorkerGate { gpu } => c.distributed && config.has_output_gate && g > 0 && gpu == g && 0
            <= i < part,
        Buf::WorkerK { gpu } => c.distributed && g > 0 && gpu == g && 0 <= i < kv,
        Buf::WorkerV { gpu } => c.distributed && g > 0 && gpu == g && 0 <= i < kv,
        _ => false,
    }
}

// ---- sizes ----

pub proof fn lemma_parts(config: &ModelConfig, c: Shared, g: int)
    requires
        head_parallel::split_ok(config, c.num_gpus as nat),
        0 <= g < c.num_gpus,
    ensures
        ({
            let local = config.num_q_heads as int / c.num_gpus as int;
            let part = share(config, c);
            &&& local == head_parallel::local_heads(config, c.num_gpus as nat)
            &&& 0 < local <= config.num_q_heads
            &&& 0 <= g * local
            &&& g * local + local <= config.num_q_heads
            &&& 0 <= part
            &&& g * part == (g * local) * config.head_dim
            &&& 0 <= g * part
            &&& g * part + part <= attention_meaning::q_width(config)
            &&& c.num_gpus * part == attention_meaning::q_width(config)
            &&& attention_meaning::q_width(config) <= usize::MAX
            &&& part * folds(config) <= usize::MAX
            &&& part <= part * folds(config)
        }),
{
    let n = c.num_gpus as int;
    let q = config.num_q_heads as int;
    let local = q / n;
    let hd = config.head_dim as int;
    let part = local * hd;
    vstd::arithmetic::div_mod::lemma_fundamental_div_mod(q, n);
    assert(n * local == q);
    assert(0 <= g * local && g * local + local <= q) by (nonlinear_arith)
        requires
            n * local == q,
            0 <= g < n,
            local >= 0,
    ;
    assert(g * (local * hd) == (g * local) * hd) by (nonlinear_arith);
    assert(0 <= part) by (nonlinear_arith)
        requires
            part == local * hd,
            local >= 0,
            hd >= 0,
    ;
    arith::lemma_scaled_index(g, n, part);
    assert(n * (local * hd) == q * hd) by (nonlinear_arith)
        requires
            n * local == q,
    ;
    let f = folds(config);
    let w = attention_meaning::q_width(config) as int;
    assert(part * f <= w * f && w <= w * f && part <= part * f) by (nonlinear_arith)
        requires
            0 <= part <= w,
            f >= 1,
    ;
}

/// An element of a GPU's share belongs to one of its heads.
proof fn lemma_share_place(config: &ModelConfig, c: Shared, g: int, i: int)
    requires
        head_parallel::split_ok(config, c.num_gpus as nat),
        0 <= g < c.num_gpus,
        0 <= i < share(config, c),
    ensures
        ({
            let dim = config.head_dim as int;
            let local = config.num_q_heads as int / c.num_gpus as int;
            let j = g * share(config, c) + i;
            &&& 0 < dim
            &&& 0 <= i / dim < local
            &&& 0 <= i % dim < dim
            &&& i == (i / dim) * dim + i % dim
            &&& 0 <= j < attention_meaning::q_width(config)
            &&& j / dim == g * local + i / dim
            &&& j % dim == i % dim
            &&& j == (g * local + i / dim) * dim + i % dim
        }),
{
    let dim = config.head_dim as int;
    let local = config.num_q_heads as int / c.num_gpus as int;
    lemma_parts(config, c, g);
    attention_meaning::lemma_place(i, local, dim);
    let h = g * local + i / dim;
    assert(h * dim == (g * local) * dim + (i / dim) * dim) by (nonlinear_arith)
        requires
            h == g * local + i / dim,
    ;
    moe_meaning::lemma_cell_place(h, dim, i % dim);
}

/// A GPU's part of the queries.
spec fn slice<V>(config: &ModelConfig, c: Shared, q: Seq<V>, g: int) -> Seq<V> {
    Seq::new(share(config, c) as nat, |i: int| q[g * share(config, c) + i])
}

// ---- one GPU ----

proof fn lemma_work_joined(p: Seq<Inst>, q: Seq<Inst>)
    ensures
        mixer_meaning::work(p + q) == mixer_meaning::work(p) + mixer_meaning::work(q),
{
    assert(mixer_meaning::work(p + q) =~= mixer_meaning::work(p) + mixer_meaning::work(q));
}

proof fn lemma_same_copies(
    config: &ModelConfig,
    gpu: nat,
    attn: nat,
    row: nat,
    k: Buf,
    v: Buf,
    heads: nat,
)
    requires
        attention_forward::dims_fit(config),
        attn < config.attn_layers(),
    ensures
        mixer_meaning::work(head_parallel::kv_write(config, gpu, attn, row, k, v, heads))
            == kv_meaning::copies(config, gpu as usize, attn, row, k, v, heads),
    decreases heads,
{
    let l = head_parallel::kv_write(config, gpu, attn, row, k, v, heads);
    if heads > 0 {
        let h = (heads - 1) as nat;
        let hd = config.head_dim as int;
        lemma_same_copies(config, gpu, attn, row, k, v, h);
        kv_meaning::lemma_planes_fit(config, attn);
        assert((h * (64 * hd) + row * hd) * 4 == ((h * 64 + row) * hd) * 4) by (nonlinear_arith);
        let before = head_parallel::kv_write(config, gpu, attn, row, k, v, h);
        let last = seq![l[l.len() - 2], l[l.len() - 1]];
        assert(l =~= before + last);
        lemma_work_joined(before, last);
        assert(mixer_meaning::work(l) =~= kv_meaning::copies(
            config,
            gpu as usize,
            attn,
            row,
            k,
            v,
            heads,
        ));
    } else {
        assert(mixer_meaning::work(l) =~= Seq::empty());
    }
}

/// What a GPU attends with is in place: its part of the queries, and the token's keys and
/// values.
spec fn ready<V>(
    a: Mixing<V>,
    s: Memory<V>,
    t: Memory<V>,
    config: &ModelConfig,
    c: Shared,
    g: nat,
    k: Buf,
    v: Buf,
) -> bool {
    let part = share(config, c);
    &&& mixer_meaning::vector(t, ops::start(head_parallel::q_buf(g)), part as nat) == slice(
        config,
        c,
        queries(a, s, config, c),
        g as int,
    )
    &&& forall|i: int|
        0 <= i < attention_meaning::kv_width(config) ==> #[trigger] (t.value)(k, i) == token_keys(
            a,
            s,
            config,
            c,
        )[i]
    &&& forall|i: int|
        0 <= i < attention_meaning::kv_width(config) ==> #[trigger] (t.value)(v, i) == token_values(
            a,
            s,
            config,
            c,
        )[i]
    &&& c.distributed && config.has_output_gate ==> forall|i: int|
        0 <= i < part ==> #[trigger] (t.value)(head_parallel::gate_buf(g), i) == (a.product)(
            ops::whole(Weight::QGate { layer: c.layer }),
            handed_out(s, config),
            attention_meaning::gate_row(config, g * part + i),
        )
    &&& forall|b: Buf, x: int|
        !writes(config, c, g, b, x) || b is KvChunk ==> #[trigger] (t.value)(b, x) == (s.value)(
            b,
            x,
        )
    &&& t.past == s.past
}

/// Rows of the query projection of a GPU are rows of the whole one.
proof fn lemma_query_rows(config: &ModelConfig, c: Shared, g: int, i: int)
    requires
        head_parallel::split_ok(config, c.num_gpus as nat),
        0 <= g < c.num_gpus,
        0 <= i < share(config, c),
    ensures
        ({
            let dim = config.head_dim as int;
            let part = share(config, c);
            let j = g * part + i;
            let rows = part * folds(config);
            let own = (i / dim) * (2 * dim) + i % dim;
            &&& config.has_output_gate ==> {
                &&& 0 <= own
                &&& own + dim < rows
                &&& attention_meaning::query_row(config, j) == g * rows + own
                &&& attention_meaning::gate_row(config, j) == g * rows + (own + dim)
            }
            &&& !config.has_output_gate ==> rows == part && attention_meaning::query_row(config, j)
                == g * rows + i
        }),
{
    let dim = config.head_dim as int;
    let local = config.num_q_heads as int / c.num_gpus as int;
    let part = share(config, c);
    lemma_share_place(config, c, g, i);
    lemma_parts(config, c, g);
    if config.has_output_gate {
        let h = i / dim;
        assert((g * local + h) * (2 * dim) == g * ((local * dim) * 2) + h * (2 * dim))
            by (nonlinear_arith);
        assert(0 <= h * (2 * dim) && h * (2 * dim) + 2 * dim <= (local * dim) * 2)
            by (nonlinear_arith)
            requires
                0 <= h < local,
                0 < dim,
        ;
    } else {
        assert(part * 1 == part);
    }
}

/// The operation that parts queries and gates.
spec fn parting(config: &ModelConfig, c: Shared, g: nat) -> Op {
    let part = share(config, c) as usize;
    let (q, from) = (head_parallel::q_buf(g), head_parallel::q_gate_buf(g));
    if config.has_output_gate {
        Op::Deinterleave {
            q: ops::start(q),
            gate: ops::start(head_parallel::gate_buf(g)),
            input: ops::start(from),
            heads: (config.num_q_heads as int / c.num_gpus as int) as usize,
            head_dim: config.head_dim,
        }
    } else {
        Op::Copy { dst: ops::start(q), src: ops::start(from), len: part }
    }
}

proof fn lemma_parted<V>(
    a: Mixing<V>,
    s: Memory<V>,
    config: &ModelConfig,
    c: Shared,
    g: nat,
    n: Seq<V>,
    op: Op,
)
    requires
        head_parallel::split_ok(config, c.num_gpus as nat),
        g < c.num_gpus,
        op == parting(config, c, g),
        forall|i: int|
            0 <= i < share(config, c) * folds(config) ==> #[trigger] (s.value)(
                head_parallel::q_gate_buf(g),
                i,
            ) == (a.product)(
                ops::whole(Weight::QGate { layer: c.layer }),
                n,
                g * (share(config, c) * folds(config)) + i,
            ),
    ensures
        ({
            let t = mixer_meaning::step(a, s, op);
            let part = share(config, c);
            let (q, gate) = (head_parallel::q_buf(g), head_parallel::gate_buf(g));
            let row = |j: int| (a.product)(ops::whole(Weight::QGate { layer: c.layer }), n, j);
            &&& forall|i: int|
                0 <= i < part ==> #[trigger] (t.value)(q, i) == row(
                    attention_meaning::query_row(config, g * part + i),
                )
            &&& config.has_output_gate ==> forall|i: int|
                0 <= i < part ==> #[trigger] (t.value)(gate, i) == row(
                    attention_meaning::gate_row(config, g * part + i),
                )
            &&& forall|b: Buf, x: int|
                !((b == q || b == gate && config.has_output_gate) && 0 <= x < part) ==> #[trigger] (
                t.value)(b, x) == (s.value)(b, x)
            &&& t.past == s.past
        }),
{
    let t = mixer_meaning::step(a, s, op);
    let part = share(config, c);
    let dim = config.head_dim as int;
    let local = config.num_q_heads as int / c.num_gpus as int;
    let (q, gate) = (head_parallel::q_buf(g), head_parallel::gate_buf(g));
    lemma_parts(config, c, g as int);
    assert(local * (2 * dim) == (local * dim) * 2) by (nonlinear_arith);
    assert forall|i: int| 0 <= i < part implies #[trigger] (t.value)(q, i) == (a.product)(
        ops::whole(Weight::QGate { layer: c.layer }),
        n,
        attention_meaning::query_row(config, g * part + i),
    ) by {
        lemma_query_rows(config, c, g as int, i);
        let own = (i / dim) * (2 * dim) + i % dim;
        if config.has_output_gate {
            assert((t.value)(q, i) == (s.value)(head_parallel::q_gate_buf(g), own));
        }
    }
    if config.has_output_gate {
        assert forall|i: int| 0 <= i < part implies #[trigger] (t.value)(gate, i) == (a.product)(
            ops::whole(Weight::QGate { layer: c.layer }),
            n,
            attention_meaning::gate_row(config, g * part + i),
        ) by {
            lemma_query_rows(config, c, g as int, i);
            let own = (i / dim) * (2 * dim) + dim + i % dim;
            assert((t.value)(gate, i) == (s.value)(head_parallel::q_gate_buf(g), own));
        }
    }
}

proof fn lemma_projected<V>(a: Mixing<V>, s: Memory<V>, config: &ModelConfig, c: Shared, g: nat)
    requires
        possible(config, c),
        c.distributed,
        g < c.num_gpus,
        g > 0 ==> has_slices(a, config, c, g as usize),
    ensures
        ({
            let l = head_parallel::fetch_normed(config, g, c.attn, c.position)
                + head_parallel::project(config, g, c.num_gpus as nat, c.layer, c.attn);
            ready(
                a,
                s,
                mixer_meaning::run(a, s, mixer_meaning::work(l)),
                config,
                c,
                g,
                head_parallel::k_buf(g),
                head_parallel::v_buf(g),
            )
        }),
{
    let fetch = head_parallel::fetch_normed(config, g, c.attn, c.position);
    let proj = head_parallel::project(config, g, c.num_gpus as nat, c.layer, c.attn);
    let w1 = mixer_meaning::work(fetch);
    let w2 = mixer_meaning::work(proj);
    lemma_work_joined(fetch, proj);
    mixer_meaning::lemma_run_joined(a, s, w1, w2);
    lemma_parts(config, c, g as int);
    let hs = config.hidden_size as nat;
    let n = handed_out(s, config);
    let part = share(config, c);
    let from = ops::start(head_parallel::normed_buf(g));
    let s0 = mixer_meaning::run(a, s, w1);
    if g > 0 {
        assert(w1 =~= seq![w1[0]]);
        mixer_meaning::lemma_run_one(a, s, w1[0]);
    } else {
        assert(w1 =~= Seq::empty());
    }
    assert(mixer_meaning::vector(s0, from, hs) =~= n);
    reveal_with_fuel(mixer_meaning::after, 5);
    let s1 = mixer_meaning::step(a, s0, w2[0]);
    let s2 = mixer_meaning::step(a, s1, w2[1]);
    let s3 = mixer_meaning::step(a, s2, w2[2]);
    let s4 = mixer_meaning::step(a, s3, w2[3]);
    assert(mixer_meaning::run(a, s0, w2) == s4);
    assert(mixer_meaning::vector(s1, from, hs) =~= n);
    assert(mixer_meaning::vector(s2, from, hs) =~= n);
    let rows = part * folds(config);
    let q_gate = head_parallel::q_gate_buf(g);
    let layer = c.layer;
    assert(rows == (head_parallel::local_heads(config, c.num_gpus as nat) * config.head_dim as nat)
        * attention_forward::q_mult(config));
    assert forall|i: int| 0 <= i < rows implies #[trigger] (s3.value)(q_gate, i) == (a.product)(
        ops::whole(Weight::QGate { layer }),
        n,
        g * rows + i,
    ) by {
        assert(0 * rows == 0);
    }
    lemma_parted(a, s3, config, c, g, n, w2[3]);
    let want = slice(config, c, queries(a, s, config, c), g as int);
    let got = mixer_meaning::vector(s4, ops::start(head_parallel::q_buf(g)), part as nat);
    assert forall|i: int| 0 <= i < part implies #[trigger] got[i] == want[i] by {
        lemma_share_place(config, c, g as int, i);
        assert(got[i] == (s4.value)(head_parallel::q_buf(g), i));
    }
    assert(got =~= want);
}

proof fn lemma_fetched<V>(a: Mixing<V>, s: Memory<V>, config: &ModelConfig, c: Shared, g: nat)
    requires
        possible(config, c),
        !c.distributed,
        g < c.num_gpus,
    ensures
        ready(
            a,
            s,
            mixer_meaning::run(
                a,
                s,
                mixer_meaning::work(head_parallel::fetch_q(config, g, c.num_gpus as nat)),
            ),
            config,
            c,
            g,
            Buf::KAttn,
            Buf::VAttn,
        ),
{
    let l = mixer_meaning::work(head_parallel::fetch_q(config, g, c.num_gpus as nat));
    let t = mixer_meaning::run(a, s, l);
    let part = share(config, c);
    lemma_parts(config, c, g as int);
    if g > 0 {
        assert(l =~= seq![l[0]]);
        mixer_meaning::lemma_run_one(a, s, l[0]);
    } else {
        assert(l =~= Seq::empty());
        assert(0 * part == 0);
    }
    let want = slice(config, c, queries(a, s, config, c), g as int);
    assert(mixer_meaning::vector(t, ops::start(head_parallel::q_buf(g)), part as nat) =~= want);
}

/// A GPU's batch has run: the token's keys and values are stored, the GPU's heads have
/// attended, and where there are gates, theirs are at hand.
spec fn done<V>(
    a: Mixing<V>,
    s: Memory<V>,
    t: Memory<V>,
    config: &ModelConfig,
    c: Shared,
    g: nat,
    row: int,
) -> bool {
    let part = share(config, c);
    let gpu = g as usize;
    let keys = all_keys(a, s, config, c, gpu, row);
    let values = all_values(a, s, config, c, gpu, row);
    &&& kv_meaning::planes(t, config, gpu, kv_meaning::keys_at(config, c.attn as nat)) == keys
    &&& kv_meaning::planes(t, config, gpu, kv_meaning::values_at(config, c.attn as nat)) == values
    &&& forall|i: int|
        0 <= i < part ==> #[trigger] (t.value)(head_parallel::out_buf(g), i) == attended(
            a,
            s,
            config,
            c,
            keys,
            values,
            g * part + i,
        )
    &&& c.distributed && config.has_output_gate ==> forall|i: int|
        0 <= i < part ==> #[trigger] (t.value)(head_parallel::gate_buf(g), i) == (a.product)(
            ops::whole(Weight::QGate { layer: c.layer }),
            handed_out(s, config),
            attention_meaning::gate_row(config, g * part + i),
        )
}

proof fn lemma_attended<V>(
    a: Mixing<V>,
    s: Memory<V>,
    u: Memory<V>,
    config: &ModelConfig,
    c: Shared,
    g: nat,
    row: int,
)
    requires
        possible(config, c),
        c.attn < config.attn_layers(),
        g < c.num_gpus,
        mixer_meaning::vector(u, ops::start(head_parallel::q_buf(g)), share(config, c) as nat)
            == slice(config, c, queries(a, s, config, c), g as int),
        kv_meaning::planes(
            u,
            config,
            g as usize,
            kv_meaning::keys_at(config, c.attn as nat),
        ) == all_keys(a, s, config, c, g as usize, row),
        kv_meaning::planes(
            u,
            config,
            g as usize,
            kv_meaning::values_at(config, c.attn as nat),
        ) == all_values(a, s, config, c, g as usize, row),
    ensures
        ({
            let t = mixer_meaning::step(
                a,
                u,
                head_parallel::attend(
                    config,
                    g,
                    c.num_gpus as nat,
                    c.layer,
                    c.attn as nat,
                    c.position,
                ).op,
            );
            let part = share(config, c);
            let out = head_parallel::out_buf(g);
            &&& forall|i: int|
                0 <= i < part ==> #[trigger] (t.value)(out, i) == attended(
                    a,
                    s,
                    config,
                    c,
                    all_keys(a, s, config, c, g as usize, row),
                    all_values(a, s, config, c, g as usize, row),
                    g * part + i,
                )
            &&& forall|b: Buf, x: int|
                !(b == out && 0 <= x < part) ==> #[trigger] (t.value)(b, x) == (u.value)(b, x)
            &&& t.past == u.past
        }),
{
    let op = head_parallel::attend(
        config,
        g,
        c.num_gpus as nat,
        c.layer,
        c.attn as nat,
        c.position,
    ).op;
    let t = mixer_meaning::step(a, u, op);
    let part = share(config, c);
    let dim = config.head_dim as nat;
    let local = config.num_q_heads as int / c.num_gpus as int;
    let q = queries(a, s, config, c);
    let own = slice(config, c, q, g as int);
    let out = head_parallel::out_buf(g);
    kv_meaning::lemma_planes_fit(config, c.attn as nat);
    lemma_parts(config, c, g as int);
    let keys = all_keys(a, s, config, c, g as usize, row);
    let values = all_values(a, s, config, c, g as usize, row);
    assert forall|i: int| 0 <= i < part implies #[trigger] (t.value)(out, i) == attended(
        a,
        s,
        config,
        c,
        keys,
        values,
        g * part + i,
    ) by {
        lemma_share_place(config, c, g as int, i);
        let h = i / dim as int;
        let all = g * local + h;
        let (mine, whole) = (mixer_meaning::head(own, h, dim), mixer_meaning::head(q, all, dim));
        assert(mine =~= whole) by {
            assert forall|e: int| 0 <= e < dim implies #[trigger] mine[e] == whole[e] by {
                assert(h * dim + dim <= local * dim) by (nonlinear_arith)
                    requires
                        h + 1 <= local,
                        dim >= 0,
                ;
                assert(0 <= h * dim) by (nonlinear_arith)
                    requires
                        h >= 0,
                        dim >= 0,
                ;
                assert(all * dim == (g * local) * dim + h * dim) by (nonlinear_arith)
                    requires
                        all == g * local + h,
                ;
            }
        }
    }
}

proof fn lemma_batch<V>(
    a: Mixing<V>,
    s: Memory<V>,
    config: &ModelConfig,
    c: Shared,
    g: nat,
    row: nat,
)
    requires
        possible(config, c),
        g < c.num_gpus,
        row < CHUNK_TOKENS,
        c.distributed && g > 0 ==> has_slices(a, config, c, g as usize),
    ensures
        ({
            let t = mixer_meaning::run(
                a,
                s,
                mixer_meaning::work(
                    head_parallel::gpu_batch(
                        config,
                        g,
                        c.num_gpus as nat,
                        c.attn,
                        c.position,
                        row,
                        c.distributed,
                    ),
                ),
            );
            &&& done(a, s, t, config, c, g, row as int)
            &&& forall|b: Buf, x: int|
                !writes(config, c, g, b, x) ==> #[trigger] (t.value)(b, x) == (s.value)(b, x)
            &&& t.past == s.past
        }),
{
    let attn = c.attn as nat;
    let gpu = g as usize;
    let hd = config.head_dim as int;
    let nkh = config.num_kv_heads as nat;
    config::lemma_nth_layer_unique(config.layers@, LayerType::Attention, attn, c.layer as int);
    let (k, v) = if c.distributed {
        (head_parallel::k_buf(g), head_parallel::v_buf(g))
    } else {
        (Buf::KAttn, Buf::VAttn)
    };
    let l1 = if c.distributed {
        head_parallel::fetch_normed(config, g, c.attn, c.position) + head_parallel::project(
            config,
            g,
            c.num_gpus as nat,
            c.layer,
            c.attn,
        )
    } else {
        head_parallel::fetch_q(config, g, c.num_gpus as nat)
    };
    let l2 = head_parallel::kv_write(config, g, attn, row, k, v, nkh);
    let last = head_parallel::attend(config, g, c.num_gpus as nat, c.layer, attn, c.position);
    let all = head_parallel::gpu_batch(
        config,
        g,
        c.num_gpus as nat,
        c.attn,
        c.position,
        row,
        c.distributed,
    );
    assert(all =~= l1 + l2 + seq![last]);
    lemma_work_joined(l1 + l2, seq![last]);
    lemma_work_joined(l1, l2);
    let (w1, w2) = (mixer_meaning::work(l1), mixer_meaning::work(l2));
    assert(mixer_meaning::work(seq![last]) =~= seq![last.op]);
    mixer_meaning::lemma_run_joined(a, s, w1 + w2, seq![last.op]);
    mixer_meaning::lemma_run_joined(a, s, w1, w2);
    let s1 = mixer_meaning::run(a, s, w1);
    let s2 = mixer_meaning::run(a, s1, w2);
    let s3 = mixer_meaning::step(a, s2, last.op);
    mixer_meaning::lemma_run_one(a, s2, last.op);
    if c.distributed {
        lemma_projected(a, s, config, c, g);
    } else {
        lemma_fetched(a, s, config, c, g);
    }
    lemma_same_copies(config, g, attn, row, k, v, nkh);
    kv_meaning::lemma_copies(a, s1, config, gpu, attn, row, k, v, nkh);
    let (kp, vp) = (kv_meaning::keys_at(config, attn), kv_meaning::values_at(config, attn));
    let tk = token_keys(a, s, config, c);
    let tv = token_values(a, s, config, c);
    assert forall|h: int, r: int, i: int|
        0 <= h < nkh && 0 <= r < CHUNK_TOKENS && 0 <= i < hd implies #[trigger] kv_meaning::cell(
        s2,
        gpu,
        kp,
        hd,
        h,
        r,
        i,
    ) == if r == row {
        tk[h * config.head_dim + i]
    } else {
        kv_meaning::cell(s, gpu, kp, hd, h, r, i)
    } by {
        arith::lemma_scaled_index(h, nkh as int, hd);
    }
    assert forall|h: int, r: int, i: int|
        0 <= h < nkh && 0 <= r < CHUNK_TOKENS && 0 <= i < hd implies #[trigger] kv_meaning::cell(
        s2,
        gpu,
        vp,
        hd,
        h,
        r,
        i,
    ) == if r == row {
        tv[h * config.head_dim + i]
    } else {
        kv_meaning::cell(s, gpu, vp, hd, h, r, i)
    } by {
        arith::lemma_scaled_index(h, nkh as int, hd);
    }
    kv_meaning::lemma_planes_stored(s, s2, config, gpu, kp, row, tk);
    kv_meaning::lemma_planes_stored(s, s2, config, gpu, vp, row, tv);
    let at = ops::start(head_parallel::q_buf(g));
    let part = share(config, c);
    lemma_parts(config, c, g as int);
    assert(mixer_meaning::vector(s2, at, part as nat) =~= mixer_meaning::vector(
        s1,
        at,
        part as nat,
    ));
    lemma_attended(a, s, s2, config, c, g, row as int);
    kv_meaning::lemma_planes_kept(s2, s3, config, gpu, kp);
    kv_meaning::lemma_planes_kept(s2, s3, config, gpu, vp);
}

// ---- all GPUs ----

/// The contents after the batches of the first `m` GPUs.
pub open spec fn batches_run<V>(
    a: Mixing<V>,
    s: Memory<V>,
    plan: &HeadParallelPlan,
    m: nat,
) -> Memory<V>
    decreases m,
{
    if m == 0 {
        s
    } else {
        mixer_meaning::run(
            a,
            batches_run(a, s, plan, (m - 1) as nat),
            mixer_meaning::work(plan.batches@[m - 1]@),
        )
    }
}

/// The contents after all batches and what GPU 0 collects.
pub open spec fn plan_run<V>(
    a: Mixing<V>,
    s: Memory<V>,
    plan: &HeadParallelPlan,
    num_gpus: nat,
) -> Memory<V> {
    mixer_meaning::run(
        a,
        batches_run(a, s, plan, num_gpus),
        mixer_meaning::work(plan.gather@),
    )
}

/// The GPU whose batch may write a buffer.
spec fn owner(b: Buf) -> int {
    match b {
        Buf::KvChunk { gpu } => gpu as int,
        Buf::WorkerAttnOut { gpu } => gpu as int,
        Buf::WorkerQ { gpu } => gpu as int,
        Buf::WorkerNormed { gpu } => gpu as int,
        Buf::WorkerQGate { gpu } => gpu as int,
        Buf::WorkerGate { gpu } => gpu as int,
        Buf::WorkerK { gpu } => gpu as int,
        Buf::WorkerV { gpu } => gpu as int,
        _ => 0,
    }
}

/// Row of the token in a GPU's chunk that holds `len` tokens with it.
pub open spec fn row_of(len: u32) -> int {
    if len == 0 {
        0
    } else {
        len - 1
    }
}

/// A GPU's batch depends on nothing that the other batches write.
proof fn lemma_inputs_same<V>(
    a: Mixing<V>,
    s: Memory<V>,
    u: Memory<V>,
    config: &ModelConfig,
    c: Shared,
    gpu: usize,
    row: int,
)
    requires
        u.past == s.past,
        forall|i: int| #[trigger] (u.value)(Buf::NormedStage, i) == (s.value)(Buf::NormedStage, i),
        !c.distributed ==> forall|b: Buf, i: int|
            b == Buf::QAttn || b == Buf::KAttn || b == Buf::VAttn ==> #[trigger] (u.value)(b, i)
                == (s.value)(b, i),
        forall|i: int| #[trigger]
            (u.value)(Buf::KvChunk { gpu }, i) == (s.value)(Buf::KvChunk { gpu }, i),
    ensures
        handed_out(u, config) == handed_out(s, config),
        queries(a, u, config, c) == queries(a, s, config, c),
        all_keys(a, u, config, c, gpu, row) == all_keys(a, s, config, c, gpu, row),
        all_values(a, u, config, c, gpu, row) == all_values(a, s, config, c, gpu, row),
{
    assert(handed_out(u, config) =~= handed_out(s, config));
    assert(queries(a, u, config, c) =~= queries(a, s, config, c));
    assert(token_keys(a, u, config, c) =~= token_keys(a, s, config, c));
    assert(token_values(a, u, config, c) =~= token_values(a, s, config, c));
    kv_meaning::lemma_planes_kept(s, u, config, gpu, kv_meaning::keys_at(config, c.attn as nat));
    kv_meaning::lemma_planes_kept(s, u, config, gpu, kv_meaning::values_at(config, c.attn as nat));
}

proof fn lemma_batches<V>(
    a: Mixing<V>,
    s: Memory<V>,
    config: &ModelConfig,
    c: Shared,
    plan: &HeadParallelPlan,
    chunk_lens: Seq<u32>,
    m: nat,
)
    requires
        possible(config, c),
        m <= c.num_gpus,
        chunk_lens.len() >= c.num_gpus,
        forall|g: int| 0 <= g < c.num_gpus ==> (#[trigger] chunk_lens[g]) <= CHUNK_TOKENS,
        plan.is_plan(
            config,
            c.num_gpus as nat,
            c.attn,
            c.position,
            chunk_lens,
            c.distributed,
        ),
        c.distributed ==> forall|g: usize|
            0 < g < c.num_gpus ==> #[trigger] has_slices(a, config, c, g),
    ensures
        ({
            let t = batches_run(a, s, plan, m);
            &&& forall|g: nat|
                g < m ==> #[trigger] done(
                    a,
                    s,
                    t,
                    config,
                    c,
                    g,
                    row_of(chunk_lens[g as int]),
                )
            &&& forall|b: Buf, x: int|
                !(0 <= owner(b) < m && writes(config, c, owner(b) as nat, b, x)) ==> #[trigger] (
                t.value)(b, x) == (s.value)(b, x)
            &&& t.past == s.past
        }),
    decreases m,
{
    if m > 0 {
        let p = (m - 1) as nat;
        lemma_batches(a, s, config, c, plan, chunk_lens, p);
        let u = batches_run(a, s, plan, p);
        let t = batches_run(a, s, plan, m);
        let row = row_of(chunk_lens[p as int]);
        assert(plan.batches@[p as int]@ == head_parallel::gpu_batch(
            config,
            p,
            c.num_gpus as nat,
            c.attn,
            c.position,
            head_parallel::row_in(chunk_lens[p as int]),
            c.distributed,
        ));
        assert(chunk_lens[p as int] <= CHUNK_TOKENS);
        if c.distributed && p > 0 {
            assert(has_slices(a, config, c, p as usize));
        }
        lemma_batch(a, u, config, c, p, row as nat);
        lemma_inputs_same(a, s, u, config, c, p as usize, row);
        assert(done(a, s, t, config, c, p, row));
        assert forall|g: nat| g < m implies #[trigger] done(
            a,
            s,
            t,
            config,
            c,
            g,
            row_of(chunk_lens[g as int]),
        ) by {
            if g < p {
                assert(done(a, s, u, config, c, g, row_of(chunk_lens[g as int])));
                kv_meaning::lemma_planes_kept(
                    u,
                    t,
                    config,
                    g as usize,
                    kv_meaning::keys_at(config, c.attn as nat),
                );
                kv_meaning::lemma_planes_kept(
                    u,
                    t,
                    config,
                    g as usize,
                    kv_meaning::values_at(config, c.attn as nat),
                );
            }
        }
    }
}

proof fn lemma_gather<V>(
    a: Mixing<V>,
    s: Memory<V>,
    config: &ModelConfig,
    c: Shared,
    dst: Buf,
    gate: bool,
    count: nat,
)
    requires
        head_parallel::split_ok(config, c.num_gpus as nat),
        1 <= count <= c.num_gpus,
        dst == Buf::AttnOut || dst == Buf::GateAttn,
    ensures
        ({
            let part = share(config, c);
            let t = mixer_meaning::run(
                a,
                s,
                mixer_meaning::work(head_parallel::gather_from(part as nat, dst, gate, count)),
            );
            &&& forall|g: int, i: int|
                1 <= g < count && 0 <= i < part ==> #[trigger] (t.value)(dst, g * part + i) == (
                s.value)(
                    if gate {
                        Buf::WorkerGate { gpu: g as usize }
                    } else {
                        Buf::WorkerAttnOut { gpu: g as usize }
                    },
                    i,
                )
            &&& forall|b: Buf, x: int|
                !(b == dst && part <= x < count * part) ==> #[trigger] (t.value)(b, x) == (s.value)(
                    b,
                    x,
                )
            &&& t.past == s.past
        }),
    decreases count,
{
    let part = share(config, c);
    let l = head_parallel::gather_from(part as nat, dst, gate, count);
    lemma_parts(config, c, count - 1);
    assert(1 * part == part);
    if count > 1 {
        let p = (count - 1) as nat;
        lemma_gather(a, s, config, c, dst, gate, p);
        let before = head_parallel::gather_from(part as nat, dst, gate, p);
        let last = seq![l.last()];
        assert(l =~= before + last);
        lemma_work_joined(before, last);
        let op = last[0].op;
        assert(mixer_meaning::work(last) =~= seq![op]);
        mixer_meaning::lemma_run_joined(a, s, mixer_meaning::work(before), seq![op]);
        let u = mixer_meaning::run(a, s, mixer_meaning::work(before));
        mixer_meaning::lemma_run_one(a, u, op);
        let t = mixer_meaning::step(a, u, op);
        assert(p * part + part == count * part) by (nonlinear_arith)
            requires
                p + 1 == count,
        ;
        assert(part <= p * part) by (nonlinear_arith)
            requires
                1 <= p,
                0 <= part,
        ;
        assert forall|g: int, i: int| 1 <= g < count && 0 <= i < part implies #[trigger] (t.value)(
            dst,
            g * part + i,
        ) == (s.value)(
            if gate {
                Buf::WorkerGate { gpu: g as usize }
            } else {
                Buf::WorkerAttnOut { gpu: g as usize }
            },
            i,
        ) by {
            moe_meaning::lemma_rows_apart(g, p as int, part, i);
        }
    } else {
        assert(mixer_meaning::work(l) =~= Seq::empty());
    }
}

/// The GPU that element `j` of the queries belongs to.
pub open spec fn home(config: &ModelConfig, c: Shared, j: int) -> usize {
    ((j / config.head_dim as int) / (config.num_q_heads as int / c.num_gpus as int)) as usize
}

/// The elements that the whole step may write.
pub open spec fn step_writes(config: &ModelConfig, c: Shared, b: Buf, i: int) -> bool {
    ||| exists|g: nat| g < c.num_gpus && #[trigger] writes(config, c, g, b, i)
    ||| b == Buf::AttnOut && 0 <= i < attention_meaning::q_width(config)
    ||| b == Buf::GateAttn && c.distributed && config.has_output_gate && 0 <= i
        < attention_meaning::q_width(config)
}

/// Shared attention: every GPU stores the token's keys and values, projected with the
/// layer's key and value weights, in the token's row of its own planes. Every query head
/// attends on the GPU it belongs to, over that GPU's keys and values; GPU 0 ends up with
/// what all heads gathered, in order, and with all their output gates.
pub proof fn law_shared_attention<V>(
    a: Mixing<V>,
    s: Memory<V>,
    config: &ModelConfig,
    c: Shared,
    plan: &HeadParallelPlan,
    chunk_lens: Seq<u32>,
)
    requires
        possible(config, c),
        chunk_lens.len() >= c.num_gpus,
        forall|g: int| 0 <= g < c.num_gpus ==> (#[trigger] chunk_lens[g]) <= CHUNK_TOKENS,
        plan.is_plan(
            config,
            c.num_gpus as nat,
            c.attn,
            c.position,
            chunk_lens,
            c.distributed,
        ),
        c.distributed ==> forall|g: usize|
            0 < g < c.num_gpus ==> #[trigger] has_slices(a, config, c, g),
    ensures
        ({
            let t = plan_run(a, s, plan, c.num_gpus as nat);
            let (kp, vp) = (
                kv_meaning::keys_at(config, c.attn as nat),
                kv_meaning::values_at(config, c.attn as nat),
            );
            &&& forall|g: usize|
                g < c.num_gpus ==> #[trigger] kv_meaning::planes(t, config, g, kp) == all_keys(
                    a,
                    s,
                    config,
                    c,
                    g,
                    row_of(chunk_lens[g as int]),
                )
            &&& forall|g: usize|
                g < c.num_gpus ==> #[trigger] kv_meaning::planes(t, config, g, vp) == all_values(
                    a,
                    s,
                    config,
                    c,
                    g,
                    row_of(chunk_lens[g as int]),
                )
            &&& forall|j: int|
                0 <= j < attention_meaning::q_width(config) ==> #[trigger] (t.value)(
                    Buf::AttnOut,
                    j,
                ) == {
                    let g = home(config, c, j);
                    let row = row_of(chunk_lens[g as int]);
                    attended(
                        a,
                        s,
                        config,
                        c,
                        all_keys(a, s, config, c, g, row),
                        all_values(a, s, config, c, g, row),
                        j,
                    )
                }
            &&& c.distributed && config.has_output_gate ==> forall|j: int|
                0 <= j < attention_meaning::q_width(config) ==> #[trigger] (t.value)(
                    Buf::GateAttn,
                    j,
                ) == (a.product)(
                    ops::whole(Weight::QGate { layer: c.layer }),
                    handed_out(s, config),
                    attention_meaning::gate_row(config, j),
                )
            &&& forall|b: Buf, i: int|
                !step_writes(config, c, b, i) ==> #[trigger] (t.value)(b, i) == (s.value)(b, i)
            &&& t.past == s.past
        }),
{
    let n = c.num_gpus as nat;
    let part = share(config, c);
    let attn = c.attn as nat;
    let (kp, vp) = (kv_meaning::keys_at(config, attn), kv_meaning::values_at(config, attn));
    lemma_batches(a, s, config, c, plan, chunk_lens, n);
    let u = batches_run(a, s, plan, n);
    let gates = c.distributed && config.has_output_gate;
    lemma_parts(config, c, 0);
    let l1 = head_parallel::gather_from(part as nat, Buf::AttnOut, false, n);
    let l2 = if gates {
        head_parallel::gather_from(part as nat, Buf::GateAttn, true, n)
    } else {
        Seq::empty()
    };
    assert(plan.gather@ =~= l1 + l2);
    lemma_work_joined(l1, l2);
    mixer_meaning::lemma_run_joined(a, u, mixer_meaning::work(l1), mixer_meaning::work(l2));
    let u1 = mixer_meaning::run(a, u, mixer_meaning::work(l1));
    let t = mixer_meaning::run(a, u1, mixer_meaning::work(l2));
    lemma_gather(a, u, config, c, Buf::AttnOut, false, n);
    if gates {
        lemma_gather(a, u1, config, c, Buf::GateAttn, true, n);
    } else {
        assert(mixer_meaning::work(l2) =~= Seq::empty());
    }
    assert(t == plan_run(a, s, plan, n));
    assert forall|g: usize| g < n implies #[trigger] kv_meaning::planes(t, config, g, kp)
        == all_keys(a, s, config, c, g, row_of(chunk_lens[g as int])) by {
        assert(done(a, s, u, config, c, g as nat, row_of(chunk_lens[g as int])));
        kv_meaning::lemma_planes_kept(u, t, config, g, kp);
    }
    assert forall|g: usize| g < n implies #[trigger] kv_meaning::planes(t, config, g, vp)
        == all_values(a, s, config, c, g, row_of(chunk_lens[g as int])) by {
        assert(done(a, s, u, config, c, g as nat, row_of(chunk_lens[g as int])));
        kv_meaning::lemma_planes_kept(u, t, config, g, vp);
    }
    assert forall|j: int| 0 <= j < attention_meaning::q_width(config) implies ({
        let g = home(config, c, j);
        let row = row_of(chunk_lens[g as int]);
        &&& #[trigger] (t.value)(Buf::AttnOut, j) == attended(
            a,
            s,
            config,
            c,
            all_keys(a, s, config, c, g, row),
            all_values(a, s, config, c, g, row),
            j,
        )
        &&& gates ==> (t.value)(Buf::GateAttn, j) == (a.product)(
            ops::whole(Weight::QGate { layer: c.layer }),
            handed_out(s, config),
            attention_meaning::gate_row(config, j),
        )
    }) by {
        let g = home(config, c, j);
        lemma_home(config, c, j);
        let i = j - g * part;
        assert(done(a, s, u, config, c, g as nat, row_of(chunk_lens[g as int])));
        if g > 0 {
            assert((t.value)(Buf::AttnOut, g * part + i) == (u1.value)(
                Buf::AttnOut,
                g * part + i,
            ));
            assert((u.value)(head_parallel::out_buf(g as nat), i) == (t.value)(Buf::AttnOut, j));
            if gates {
                assert((t.value)(Buf::GateAttn, g * part + i) == (u1.value)(
                    Buf::WorkerGate { gpu: g },
                    i,
                ));
                assert((u.value)(head_parallel::gate_buf(g as nat), i) == (t.value)(
                    Buf::GateAttn,
                    j,
                ));
            }
        } else {
            assert(g * part == 0);
            assert((u.value)(head_parallel::out_buf(0), i) == (t.value)(Buf::AttnOut, j));
            if gates {
                assert((u.value)(head_parallel::gate_buf(0), i) == (t.value)(Buf::GateAttn, j));
            }
        }
    }
    if gates {
        assert forall|j: int| 0 <= j < attention_meaning::q_width(config) implies #[trigger] (
        t.value)(Buf::GateAttn, j) == (a.product)(
            ops::whole(Weight::QGate { layer: c.layer }),
            handed_out(s, config),
            attention_meaning::gate_row(config, j),
        ) by {
            let _out = (t.value)(Buf::AttnOut, j);
        }
    }
    assert forall|b: Buf, i: int| !step_writes(config, c, b, i) implies #[trigger] (t.value)(b, i)
        == (s.value)(b, i) by {
        let g = owner(b);
        if 0 <= g < n && writes(config, c, g as nat, b, i) {
            assert(step_writes(config, c, b, i));
        }
    }
}

/// Every element of the queries belongs to one GPU's share.
proof fn lemma_home(config: &ModelConfig, c: Shared, j: int)
    requires
        head_parallel::split_ok(config, c.num_gpus as nat),
        0 <= j < attention_meaning::q_width(config),
    ensures
        ({
            let g = home(config, c, j);
            &&& g < c.num_gpus
            &&& g * share(config, c) <= j < g * share(config, c) + share(config, c)
        }),
{
    let dim = config.head_dim as int;
    let n = c.num_gpus as int;
    let local = config.num_q_heads as int / n;
    lemma_parts(config, c, 0);
    attention_meaning::lemma_place(j, config.num_q_heads as int, dim);
    let h = j / dim;
    vstd::arithmetic::div_mod::lemma_fundamental_div_mod(config.num_q_heads as int, n);
    assert(h < n * local);
    assert(n * local == local * n) by (nonlinear_arith);
    attention_meaning::lemma_place(h, n, local);
    let g = h / local;
    assert(g * (local * dim) <= j < g * (local * dim) + local * dim) by (nonlinear_arith)
        requires
            j == h * dim + j % dim,
            0 <= j % dim < dim,
            h == g * local + h % local,
            0 <= h % local < local,
    ;
}

/// GPUs whose caches are in step compute together what one of them would compute alone,
/// and stay in step.
pub proof fn law_shared_is_single<V>(
    a: Mixing<V>,
    s: Memory<V>,
    config: &ModelConfig,
    c: Shared,
    plan: &HeadParallelPlan,
    chunk_lens: Seq<u32>,
    alone: &HeadParallelPlan,
)
    requires
        possible(config, c),
        chunk_lens.len() >= c.num_gpus,
        forall|g: int|
            0 <= g < c.num_gpus ==> (#[trigger] chunk_lens[g]) <= CHUNK_TOKENS && chunk_lens[g]
                == chunk_lens[0],
        plan.is_plan(
            config,
            c.num_gpus as nat,
            c.attn,
            c.position,
            chunk_lens,
            c.distributed,
        ),
        alone.is_plan(config, 1, c.attn, c.position, chunk_lens, c.distributed),
        c.distributed ==> forall|g: usize|
            0 < g < c.num_gpus ==> #[trigger] has_slices(a, config, c, g),
        forall|g: usize|
            g < c.num_gpus ==> {
                &&& #[trigger] kv_meaning::planes(
                    s,
                    config,
                    g,
                    kv_meaning::keys_at(config, c.attn as nat),
                ) == kv_meaning::planes(s, config, 0, kv_meaning::keys_at(config, c.attn as nat))
                &&& kv_meaning::planes(
                    s,
                    config,
                    g,
                    kv_meaning::values_at(config, c.attn as nat),
                ) == kv_meaning::planes(s, config, 0, kv_meaning::values_at(config, c.attn as nat))
            },
    ensures
        ({
            let t = plan_run(a, s, plan, c.num_gpus as nat);
            let o = plan_run(a, s, alone, 1);
            &&& forall|j: int|
                0 <= j < attention_meaning::q_width(config) ==> #[trigger] (t.value)(
                    Buf::AttnOut,
                    j,
                ) == (o.value)(Buf::AttnOut, j)
            &&& c.distributed && config.has_output_gate ==> forall|j: int|
                0 <= j < attention_meaning::q_width(config) ==> #[trigger] (t.value)(
                    Buf::GateAttn,
                    j,
                ) == (o.value)(Buf::GateAttn, j)
            &&& forall|g: usize|
                g < c.num_gpus ==> #[trigger] kv_meaning::planes(
                    t,
                    config,
                    g,
                    kv_meaning::keys_at(config, c.attn as nat),
                ) == kv_meaning::planes(o, config, 0, kv_meaning::keys_at(config, c.attn as nat))
            &&& forall|g: usize|
                g < c.num_gpus ==> #[trigger] kv_meaning::planes(
                    t,
                    config,
                    g,
                    kv_meaning::values_at(config, c.attn as nat),
                ) == kv_meaning::planes(o, config, 0, kv_meaning::values_at(config, c.attn as nat))
        }),
{
    let one = Shared { num_gpus: 1, ..c };
    let attn = c.attn as nat;
    let (kp, vp) = (kv_meaning::keys_at(config, attn), kv_meaning::values_at(config, attn));
    assert(head_parallel::split_ok(config, 1)) by {
        lemma_parts(config, c, 0);
    }
    law_shared_attention(a, s, config, c, plan, chunk_lens);
    law_shared_attention(a, s, config, one, alone, chunk_lens);
    let row = row_of(chunk_lens[0]);
    let o = plan_run(a, s, alone, 1);
    assert(kv_meaning::planes(o, config, 0, kp) == all_keys(a, s, config, one, 0, row));
    assert(kv_meaning::planes(o, config, 0, vp) == all_values(a, s, config, one, 0, row));
    assert(queries(a, s, config, one) == queries(a, s, config, c));
    assert forall|g: usize| g < c.num_gpus implies {
        &&& #[trigger] all_keys(a, s, config, c, g, row) == all_keys(a, s, config, one, 0, row)
        &&& all_values(a, s, config, c, g, row) == all_values(a, s, config, one, 0, row)
    } by {
        assert(kv_meaning::planes(s, config, g, kp) == kv_meaning::planes(s, config, 0, kp));
    }
    assert forall|j: int| 0 <= j < attention_meaning::q_width(config) implies {
        &&& home(config, c, j) < c.num_gpus
        &&& #[trigger] home(config, one, j) == 0
    } by {
        lemma_home(config, c, j);
        lemma_home(config, one, j);
    }
    let t = plan_run(a, s, plan, c.num_gpus as nat);
    assert forall|j: int| 0 <= j < attention_meaning::q_width(config) implies #[trigger] (t.value)(
        Buf::AttnOut,
        j,
    ) == (o.value)(Buf::AttnOut, j) by {
        let g = home(config, c, j);
        assert(home(config, one, j) == 0);
        assert(chunk_lens[g as int] == chunk_lens[0]);
        assert(all_keys(a, s, config, c, g, row) == all_keys(a, s, config, one, 0, row));
    }
    assert forall|g: usize| g < c.num_gpus implies #[trigger] kv_meaning::planes(t, config, g, kp)
        == kv_meaning::planes(o, config, 0, kp) by {
        assert(chunk_lens[g as int] == chunk_lens[0]);
        assert(all_keys(a, s, config, c, g, row) == all_keys(a, s, config, one, 0, row));
    }
    assert forall|g: usize| g < c.num_gpus implies #[trigger] kv_meaning::planes(t, config, g, vp)
        == kv_meaning::planes(o, config, 0, vp) by {
        assert(chunk_lens[g as int] == chunk_lens[0]);
        assert(all_keys(a, s, config, c, g, row) == all_keys(a, s, config, one, 0, row));
    }
}

/// A worker reads what GPU 0 hands out only once it is there: the instruction that reads
/// it waits for the signal of this very step, and no other instruction reads it.
pub proof fn law_worker_waits(
    config: &ModelConfig,
    c: Shared,
    g: nat,
    row: nat,
    k: int,
)
    requires
        possible(config, c),
        c.distributed,
        0 < g < c.num_gpus,
        0 <= k < head_parallel::gpu_batch(
            config,
            g,
            c.num_gpus as nat,
            c.attn,
            c.position,
            row,
            true,
        ).len(),
    ensures
        ({
            let i = head_parallel::gpu_batch(
                config,
                g,
                c.num_gpus as nat,
                c.attn,
                c.position,
                row,
                true,
            )[k];
            &&& k == 0 <==> reads(i.op, Buf::NormedStage)
            &&& k == 0 ==> i.wait == Some(
                Signal {
                    slot: SignalSlot::NormedReady { attn: c.attn },
                    value: (c.position + 1) as u64,
                },
            )
        }),
{
    let nkh = config.num_kv_heads as nat;
    lemma_writes_read(
        config,
        g,
        c.attn as nat,
        row,
        head_parallel::k_buf(g),
        head_parallel::v_buf(g),
        nkh,
    );
    let l1 = head_parallel::fetch_normed(config, g, c.attn, c.position);
    let l2 = head_parallel::project(config, g, c.num_gpus as nat, c.layer, c.attn);
    let l3 = head_parallel::kv_write(
        config,
        g,
        c.attn as nat,
        row,
        head_parallel::k_buf(g),
        head_parallel::v_buf(g),
        nkh,
    );
    config::lemma_nth_layer_unique(
        config.layers@,
        LayerType::Attention,
        c.attn as nat,
        c.layer as int,
    );
    let all = head_parallel::gpu_batch(
        config,
        g,
        c.num_gpus as nat,
        c.attn,
        c.position,
        row,
        true,
    );
    if k == 0 {
        assert(all[0] == l1[0]);
    } else if k < 5 {
        assert(all[k] == l2[k - 1]);
    } else if k < 5 + l3.len() {
        assert(all[k] == l3[k - 5]);
    }
}

/// Whether an operation of a batch reads a buffer.
pub open spec fn reads(op: Op, b: Buf) -> bool {
    match op {
        Op::Copy { src, .. } => src.buf == b,
        Op::Linear { input, .. } => input.buf == b,
        Op::Deinterleave { input, .. } => input.buf == b,
        Op::PagedAttention { q, gpu, .. } => q.buf == b || b == (Buf::KvChunk { gpu }),
        _ => true,
    }
}

proof fn lemma_writes_read(
    config: &ModelConfig,
    g: nat,
    attn: nat,
    row: nat,
    k: Buf,
    v: Buf,
    heads: nat,
)
    requires
        k != Buf::NormedStage,
        v != Buf::NormedStage,
    ensures
        ({
            let l = head_parallel::kv_write(config, g, attn, row, k, v, heads);
            forall|i: int| 0 <= i < l.len() ==> !reads((#[trigger] l[i]).op, Buf::NormedStage)
        }),
    decreases heads,
{
    if heads > 0 {
        let h = (heads - 1) as nat;
        lemma_writes_read(config, g, attn, row, k, v, h);
        let l = head_parallel::kv_write(config, g, attn, row, k, v, heads);
        let before = head_parallel::kv_write(config, g, attn, row, k, v, h);
        assert forall|i: int| 0 <= i < l.len() implies !reads(
            (#[trigger] l[i]).op,
            Buf::NormedStage,
        ) by {
            if i < before.len() {
                assert(l[i] == before[i]);
            }
        }
    }
}

// ---- where workers have their weights from ----

/// Matrix `dst` holds the bytes of a slice of matrix `src`.
pub open spec fn copied_from<V>(a: Mixing<V>, dst: Weight, src: Weight, s: WeightSlice) -> bool {
    forall|x: Seq<V>, i: int|
        0 <= i < s.out_dim ==> #[trigger] (a.product)(ops::whole(dst), x, i) == (a.product)(
            WLoc { weight: src, byte_offset: s.byte_offset },
            x,
            i,
        )
}

/// From the byte at which row `k` of a matrix starts, row `i` is row `k + i`.
pub open spec fn in_rows<V>(a: Mixing<V>, w: Weight, row_bytes: nat) -> bool {
    forall|k: nat, x: Seq<V>, i: int|
        k * row_bytes <= usize::MAX ==> #[trigger] (a.product)(
            WLoc { weight: w, byte_offset: (k * row_bytes) as usize },
            x,
            i,
        ) == (a.product)(ops::whole(w), x, k + i)
}

/// Workers whose matrices were copied from the planned slices have the weights that shared
/// attention takes them to have.
pub proof fn law_slices_give_weights<V>(
    a: Mixing<V>,
    config: &ModelConfig,
    c: Shared,
    gpu: usize,
    f: AttnFormats,
)
    requires
        head_parallel::split_ok(config, c.num_gpus as nat),
        gpu < c.num_gpus,
        distributed::slices_fit(
            seq![f],
            distributed::share_of(config, c.num_gpus as nat),
            c.num_gpus as nat,
        ),
        in_rows(a, Weight::QGate { layer: c.layer }, f.q.row_bytes(config.hidden_size as nat)),
        in_rows(a, Weight::K { layer: c.layer }, f.k.row_bytes(config.hidden_size as nat)),
        in_rows(a, Weight::V { layer: c.layer }, f.v.row_bytes(config.hidden_size as nat)),
        ({
            let (layer, attn) = (c.layer, c.attn);
            let s = distributed::slices_of(
                layer,
                gpu as nat,
                f,
                distributed::share_of(config, c.num_gpus as nat),
            );
            &&& copied_from(a, Weight::WorkerQGate { gpu, attn }, Weight::QGate { layer }, s.q)
            &&& copied_from(a, Weight::WorkerK { gpu, attn }, Weight::K { layer }, s.k)
            &&& copied_from(a, Weight::WorkerV { gpu, attn }, Weight::V { layer }, s.v)
        }),
    ensures
        has_slices(a, config, c, gpu),
{
    let n = c.num_gpus as nat;
    let hs = config.hidden_size as nat;
    let share = distributed::share_of(config, n);
    let s = distributed::slices_of(c.layer, gpu as nat, f, share);
    assert(seq![f][0] == f);
    lemma_parts(config, c, gpu as int);
    let rows = distributed::q_rows(share);
    let part = self::share(config, c);
    assert(rows == part * folds(config));
    distributed::law_kv_slices_whole(c.layer, gpu as nat, n, f, share);
    arith::lemma_scaled_index(gpu as int, n as int, rows as int);
    let start = (gpu as nat * rows) as nat;
    arith::lemma_mul_mono(start as int, (n * rows) as int, f.q.row_bytes(hs) as int);
    assert(s.q.byte_offset == start * f.q.row_bytes(hs));
    let (x, y) = (f.k.row_bytes(hs) as int, f.v.row_bytes(hs) as int);
    assert(0 * x == 0 && 0 * y == 0);
    let (layer, attn) = (c.layer, c.attn);
    assert forall|x: Seq<V>, i: int| 0 <= i < rows implies #[trigger] (a.product)(
        ops::whole(Weight::WorkerQGate { gpu, attn }),
        x,
        i,
    ) == (a.product)(ops::whole(Weight::QGate { layer }), x, gpu * rows + i) by {
        assert((a.product)(
            WLoc {
                weight: Weight::QGate { layer },
                byte_offset: (start * f.q.row_bytes(hs)) as usize,
            },
            x,
            i,
        ) == (a.product)(ops::whole(Weight::QGate { layer }), x, start + i));
    }
}

} // verus!
