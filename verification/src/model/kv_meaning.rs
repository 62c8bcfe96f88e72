//! What a token's keys and values become in a KV chunk.

use vstd::prelude::*;
use crate::config::ModelConfig;
use crate::model::kv_layout;
use crate::model::mixer_meaning;
use crate::model::mixer_meaning::{Memory, Mixing, Plane};
use crate::model::moe_meaning;
use crate::ops::{Buf, Loc, Op, CHUNK_TOKENS};

verus! {

/// Bytes of one plane of keys or values: a float for every head, token and dimension.
pub open spec fn plane_len(config: &ModelConfig) -> int {
    (config.num_kv_heads * CHUNK_TOKENS * config.head_dim) * 4
}

/// Where the keys of attention layer `attn` start: layer by layer, each has a plane of
/// keys and a plane of values.
pub open spec fn keys_at(config: &ModelConfig, attn: nat) -> int {
    (2 * attn) * plane_len(config)
}

/// Where the values of attention layer `attn` start.
pub open spec fn values_at(config: &ModelConfig, attn: nat) -> int {
    (2 * attn + 1) * plane_len(config)
}

/// A plane in which every head's row of one token is replaced by that head's part of a
/// vector.
pub open spec fn with_row<V>(p: Plane<V>, row: int, x: Seq<V>, dim: nat) -> Plane<V> {
    Seq::new(p.len(), |h: int| p[h].update(row, mixer_meaning::head(x, h, dim)))
}

/// One plane of all chunks of a GPU.
pub open spec fn planes<V>(
    s: Memory<V>,
    config: &ModelConfig,
    gpu: usize,
    offset: int,
) -> Seq<Plane<V>> {
    mixer_meaning::planes(
        s,
        gpu,
        offset,
        config.num_kv_heads as nat,
        CHUNK_TOKENS as nat,
        config.head_dim as nat,
    )
}

/// The planes of a GPU after a token's vector was stored at a row of its last chunk.
pub open spec fn stored<V>(
    s: Memory<V>,
    config: &ModelConfig,
    gpu: usize,
    offset: int,
    row: int,
    x: Seq<V>,
) -> Seq<Plane<V>> {
    let before = planes(s, config, gpu, offset);
    before.drop_last().push(with_row(before.last(), row, x, config.head_dim as nat))
}

/// An element of a plane.
pub open spec fn cell<V>(
    s: Memory<V>,
    gpu: usize,
    offset: int,
    dim: int,
    h: int,
    r: int,
    i: int,
) -> V {
    (s.value)(Buf::KvChunk { gpu }, offset + ((h * CHUNK_TOKENS + r) * dim + i) * 4)
}

/// The copies that store the first `heads` heads of a token's keys and values.
pub open spec fn copies(
    config: &ModelConfig,
    gpu: usize,
    attn: nat,
    row: nat,
    k: Buf,
    v: Buf,
    heads: nat,
) -> Seq<Op>
    decreases heads,
{
    if heads == 0 {
        Seq::empty()
    } else {
        let h = (heads - 1) as nat;
        let at = ((h * CHUNK_TOKENS + row) * config.head_dim) * 4;
        let buf = Buf::KvChunk { gpu };
        let from = (h * config.head_dim as nat) as usize;
        copies(config, gpu, attn, row, k, v, h) + seq![
            Op::Copy {
                dst: Loc { buf, offset: (keys_at(config, attn) + at) as usize },
                src: Loc { buf: k, offset: from },
                len: config.head_dim,
            },
            Op::Copy {
                dst: Loc { buf, offset: (values_at(config, attn) + at) as usize },
                src: Loc { buf: v, offset: from },
                len: config.head_dim,
            },
        ]
    }
}

/// The planes of a layer lie in the chunk.
pub proof fn lemma_planes_fit(config: &ModelConfig, attn: nat)
    requires
        kv_layout::chunk_fits(config),
        attn < config.attn_layers(),
    ensures
        plane_len(config) == kv_layout::plane_bytes(config),
        keys_at(config, attn) == kv_layout::k_plane(config, attn),
        values_at(config, attn) == kv_layout::v_plane(config, attn),
        values_at(config, attn) == keys_at(config, attn) + plane_len(config),
        0 <= keys_at(config, attn),
        0 <= plane_len(config),
        values_at(config, attn) + plane_len(config) <= usize::MAX,
{
    let (nkh, hd) = (config.num_kv_heads as int, config.head_dim as int);
    assert((nkh * 64 * hd) * 4 == 64 * (nkh * hd) * 4) by (nonlinear_arith);
    let p = plane_len(config);
    let n = config.attn_layers() as int;
    assert(0 <= p) by (nonlinear_arith)
        requires
            p == (nkh * 64 * hd) * 4,
            nkh >= 0,
            hd >= 0,
    ;
    assert((2 * attn) * p == attn * (2 * p)) by (nonlinear_arith);
    assert((2 * attn + 1) * p == (2 * attn) * p + p) by (nonlinear_arith);
    assert(0 <= (2 * attn) * p) by (nonlinear_arith)
        requires
            0 <= p,
            0 <= attn,
    ;
    kv_layout::law_planes_fill_chunk(config);
    assert(attn * (2 * p) + 2 * p <= n * (2 * p)) by (nonlinear_arith)
        requires
            attn + 1 <= n,
            0 <= p,
    ;
}

/// A row of a head lies in its plane.
proof fn lemma_row_fits(config: &ModelConfig, h: int, r: int, i: int)
    requires
        0 <= h < config.num_kv_heads,
        0 <= r < CHUNK_TOKENS,
        0 <= i < config.head_dim || i == 0,
    ensures
        0 <= (h * CHUNK_TOKENS + r) * config.head_dim,
        ((h * CHUNK_TOKENS + r) * config.head_dim + i) * 4 <= plane_len(config),
        i < config.head_dim ==> ((h * CHUNK_TOKENS + r) * config.head_dim + i) * 4 < plane_len(
            config,
        ),
        ((h * CHUNK_TOKENS + r) * config.head_dim + config.head_dim) * 4 <= plane_len(config),
{
    let (nkh, hd) = (config.num_kv_heads as int, config.head_dim as int);
    let u = h * 64 + r;
    assert(0 <= u && u + 1 <= nkh * 64);
    assert(0 <= u * hd && u * hd + hd <= (nkh * 64) * hd) by (nonlinear_arith)
        requires
            0 <= u,
            u + 1 <= nkh * 64,
            hd >= 0,
    ;
}

/// The first `heads` heads are stored, and nothing else changed.
pub open spec fn stored_cells<V>(
    s: Memory<V>,
    t: Memory<V>,
    config: &ModelConfig,
    gpu: usize,
    attn: nat,
    row: nat,
    k: Buf,
    v: Buf,
    heads: nat,
) -> bool {
    let hd = config.head_dim as int;
    let (kp, vp) = (keys_at(config, attn), values_at(config, attn));
    &&& forall|h: int, r: int, i: int|
        0 <= h < config.num_kv_heads && 0 <= r < CHUNK_TOKENS && 0 <= i < hd ==> #[trigger] cell(
            t,
            gpu,
            kp,
            hd,
            h,
            r,
            i,
        ) == if r == row && h < heads {
            (s.value)(k, h * hd + i)
        } else {
            cell(s, gpu, kp, hd, h, r, i)
        }
    &&& forall|h: int, r: int, i: int|
        0 <= h < config.num_kv_heads && 0 <= r < CHUNK_TOKENS && 0 <= i < hd ==> #[trigger] cell(
            t,
            gpu,
            vp,
            hd,
            h,
            r,
            i,
        ) == if r == row && h < heads {
            (s.value)(v, h * hd + i)
        } else {
            cell(s, gpu, vp, hd, h, r, i)
        }
    &&& forall|b: Buf, x: int|
        !(b == (Buf::KvChunk { gpu }) && kp <= x < vp + plane_len(config)) ==> #[trigger] (t.value)(
            b,
            x,
        ) == (s.value)(b, x)
    &&& t.position == s.position
    &&& t.past == s.past
}

/// One copied row.
proof fn lemma_row_copied<V>(
    a: Mixing<V>,
    s: Memory<V>,
    config: &ModelConfig,
    gpu: usize,
    base: int,
    from: Buf,
    g: nat,
    row: nat,
)
    requires
        0 <= base,
        base + plane_len(config) <= usize::MAX,
        g < config.num_kv_heads,
        row < CHUNK_TOKENS,
        config.num_kv_heads * config.head_dim <= usize::MAX,
        !(from is KvChunk),
    ensures
        ({
            let hd = config.head_dim as int;
            let op = Op::Copy {
                dst: Loc {
                    buf: Buf::KvChunk { gpu },
                    offset: (base + ((g * CHUNK_TOKENS + row) * config.head_dim) * 4) as usize,
                },
                src: Loc { buf: from, offset: (g * config.head_dim as nat) as usize },
                len: config.head_dim,
            };
            let t = mixer_meaning::step(a, s, op);
            &&& forall|h: int, r: int, i: int|
                0 <= h < config.num_kv_heads && 0 <= r < CHUNK_TOKENS && 0 <= i < hd
                    ==> #[trigger] cell(t, gpu, base, hd, h, r, i) == if r == row && h == g {
                    (s.value)(from, h * hd + i)
                } else {
                    cell(s, gpu, base, hd, h, r, i)
                }
            &&& forall|b: Buf, x: int|
                !(b == (Buf::KvChunk { gpu }) && base <= x < base + plane_len(config)) ==> #[trigger] (
                t.value)(b, x) == (s.value)(b, x)
            &&& t.position == s.position
            &&& t.past == s.past
        }),
{
    let hd = config.head_dim as int;
    let u = g * CHUNK_TOKENS + row;
    let at = base + (u * hd) * 4;
    lemma_row_fits(config, g as int, row as int, 0);
    assert(g * hd + hd <= config.num_kv_heads * hd && 0 <= g * hd) by (nonlinear_arith)
        requires
            g + 1 <= config.num_kv_heads,
            hd >= 0,
            g >= 0,
    ;
    let op = Op::Copy {
        dst: Loc { buf: Buf::KvChunk { gpu }, offset: at as usize },
        src: Loc { buf: from, offset: (g * config.head_dim as nat) as usize },
        len: config.head_dim,
    };
    let t = mixer_meaning::step(a, s, op);
    assert forall|h: int, r: int, i: int|
        0 <= h < config.num_kv_heads && 0 <= r < CHUNK_TOKENS && 0 <= i < hd implies #[trigger] cell(
        t,
        gpu,
        base,
        hd,
        h,
        r,
        i,
    ) == if r == row && h == g {
        (s.value)(from, h * hd + i)
    } else {
        cell(s, gpu, base, hd, h, r, i)
    } by {
        let w = h * CHUNK_TOKENS + r;
        moe_meaning::lemma_rows_apart(w, u, hd, i);
        assert(w == u <==> (h == g && r == row));
    }
}

pub proof fn lemma_copies<V>(
    a: Mixing<V>,
    s: Memory<V>,
    config: &ModelConfig,
    gpu: usize,
    attn: nat,
    row: nat,
    k: Buf,
    v: Buf,
    heads: nat,
)
    requires
        kv_layout::chunk_fits(config),
        attn < config.attn_layers(),
        row < CHUNK_TOKENS,
        heads <= config.num_kv_heads,
        !(k is KvChunk),
        !(v is KvChunk),
    ensures
        stored_cells(
            s,
            mixer_meaning::run(a, s, copies(config, gpu, attn, row, k, v, heads)),
            config,
            gpu,
            attn,
            row,
            k,
            v,
            heads,
        ),
    decreases heads,
{
    if heads > 0 {
        let g = (heads - 1) as nat;
        let hd = config.head_dim as int;
        lemma_planes_fit(config, attn);
        lemma_copies(a, s, config, gpu, attn, row, k, v, g);
        let l = copies(config, gpu, attn, row, k, v, heads);
        let before = copies(config, gpu, attn, row, k, v, g);
        let last = seq![l[l.len() - 2], l[l.len() - 1]];
        assert(l =~= before + last);
        mixer_meaning::lemma_run_joined(a, s, before, last);
        let s1 = mixer_meaning::run(a, s, before);
        mixer_meaning::lemma_run_two(a, s1, last[0], last[1]);
        let s2 = mixer_meaning::step(a, s1, last[0]);
        let s3 = mixer_meaning::step(a, s2, last[1]);
        let (kp, vp) = (keys_at(config, attn), values_at(config, attn));
        lemma_row_copied(a, s1, config, gpu, kp, k, g, row);
        lemma_row_copied(a, s2, config, gpu, vp, v, g, row);
        assert forall|h: int, r: int, i: int|
            0 <= h < config.num_kv_heads && 0 <= r < CHUNK_TOKENS && 0 <= i < hd implies {
            &&& #[trigger] cell(s3, gpu, kp, hd, h, r, i) == cell(s2, gpu, kp, hd, h, r, i)
        } by {
            lemma_row_fits(config, h, r, i);
        }
        assert forall|h: int, r: int, i: int|
            0 <= h < config.num_kv_heads && 0 <= r < CHUNK_TOKENS && 0 <= i < hd implies {
            &&& #[trigger] cell(s2, gpu, vp, hd, h, r, i) == cell(s1, gpu, vp, hd, h, r, i)
        } by {
            lemma_row_fits(config, h, r, i);
        }
    }
}

/// All heads stored, cell by cell, are the planes with the token's rows.
pub proof fn lemma_planes_stored<V>(
    s: Memory<V>,
    t: Memory<V>,
    config: &ModelConfig,
    gpu: usize,
    offset: int,
    row: nat,
    x: Seq<V>,
)
    requires
        row < CHUNK_TOKENS,
        t.past == s.past,
        forall|h: int, r: int, i: int|
            0 <= h < config.num_kv_heads && 0 <= r < CHUNK_TOKENS && 0 <= i < config.head_dim
                ==> #[trigger] cell(t, gpu, offset, config.head_dim as int, h, r, i) == if r == row {
                x[h * config.head_dim + i]
            } else {
                cell(s, gpu, offset, config.head_dim as int, h, r, i)
            },
    ensures
        planes(t, config, gpu, offset) == stored(s, config, gpu, offset, row as int, x),
{
    let hd = config.head_dim as nat;
    let after = planes(t, config, gpu, offset);
    let before = planes(s, config, gpu, offset);
    let (p, q) = (before.last(), after.last());
    let wanted = with_row(p, row as int, x, hd);
    assert forall|h: int| 0 <= h < config.num_kv_heads implies #[trigger] q[h] == wanted[h] by {
        assert forall|r: int| 0 <= r < CHUNK_TOKENS implies #[trigger] q[h][r] == wanted[h][r] by {
            assert forall|i: int| 0 <= i < hd implies #[trigger] q[h][r][i] == wanted[h][r][i] by {
                assert(q[h][r][i] == cell(t, gpu, offset, hd as int, h, r, i));
                assert(p[h][r][i] == cell(s, gpu, offset, hd as int, h, r, i));
            }
            assert(q[h][r] =~= wanted[h][r]);
        }
        assert(q[h] =~= wanted[h]);
    }
    assert(q =~= wanted);
    assert(after =~= stored(s, config, gpu, offset, row as int, x));
}

/// Planes that keep their cells stay as they are.
pub proof fn lemma_planes_kept<V>(
    s: Memory<V>,
    t: Memory<V>,
    config: &ModelConfig,
    gpu: usize,
    offset: int,
)
    requires
        t.past == s.past,
        forall|x: int| #[trigger]
            (t.value)(Buf::KvChunk { gpu }, x) == (s.value)(Buf::KvChunk { gpu }, x),
    ensures
        planes(t, config, gpu, offset) == planes(s, config, gpu, offset),
{
    let c = mixer_meaning::open_chunk(s, gpu);
    let d = mixer_meaning::open_chunk(t, gpu);
    assert(c =~= d);
    assert(planes(t, config, gpu, offset) =~= planes(s, config, gpu, offset));
}

} // verus!
