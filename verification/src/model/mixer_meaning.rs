//! What the operations of mixers and dense feed-forward parts compute, over any
//! arithmetic.

use vstd::prelude::*;
use crate::config::ModelConfig;
use crate::model::moe_meaning::Norm;
use crate::ops;
use crate::ops::{Buf, Inst, Loc, Op, Rotary, WLoc, Weight};

verus! {

/// How a head is rotated.
pub struct Rotation {
    pub head_dim: usize,
    pub rope_dim: usize,
    pub sections: (usize, usize, usize),
}

/// How attention is computed.
pub struct Attending {
    pub q_heads: usize,
    pub kv_heads: usize,
    pub head_dim: usize,
    pub seq_len: usize,
    pub rope_dim: usize,
    pub k_norm: Option<Weight>,
    pub rotary: Option<Rotary>,
}

/// What a recurrent step reads: queries and keys of the key heads, values, decays and
/// strengths of the value heads, and the states.
pub struct Recurrence<V> {
    pub heads: usize,
    pub key_dim: usize,
    pub value_dim: usize,
    pub group: usize,
    pub q: Seq<V>,
    pub k: Seq<V>,
    pub v: Seq<V>,
    pub decay: Seq<V>,
    pub strength: Seq<V>,
    pub state: Seq<V>,
}

/// One head's rows of a plane of keys or values, one row per token.
pub type Rows<V> = Seq<Seq<V>>;

/// A plane of keys or values of a chunk, head by head.
pub type Plane<V> = Seq<Rows<V>>;

/// Element arithmetic, given element by element of each result.
#[verifier::reject_recursive_types(V)]
pub struct Mixing<V> {
    pub norm: spec_fn(Seq<V>, Norm, int) -> V,
    /// A matrix row times a vector.
    pub product: spec_fn(WLoc, Seq<V>, int) -> V,
    pub sum: spec_fn(V, V) -> V,
    pub silu_mul: spec_fn(V, V) -> V,
    pub embedding: spec_fn(u32, int) -> V,
    /// A head, normalised with a weight and an epsilon.
    pub head_norm: spec_fn(Seq<V>, Weight, u32, int) -> V,
    /// A head, rotated to a position.
    pub rotated: spec_fn(Seq<V>, Rotation, u32, int) -> V,
    /// What query head number `h` gathers from the chunks' keys and values.
    pub attended: spec_fn(int, Seq<V>, Seq<Plane<V>>, Seq<Plane<V>>, Attending, int) -> V,
    /// An output and its gate.
    pub gated: spec_fn(V, V) -> V,
    /// What a convolution makes of a channel's remembered inputs and its new one.
    pub convolved: spec_fn(Weight, int, Seq<V>, V) -> V,
    /// What a channel remembers after a new input.
    pub remembered: spec_fn(Seq<V>, V, int) -> V,
    /// A head's decay from its rate, its bias and its projection.
    pub decay: spec_fn(Weight, Weight, int, V) -> V,
    pub recurrent: spec_fn(Recurrence<V>, int) -> V,
    pub new_state: spec_fn(Recurrence<V>, int) -> V,
    /// A head, normalised with a weight and an epsilon and gated by another vector.
    pub gated_norm: spec_fn(Seq<V>, Seq<V>, Weight, u32, int) -> V,
}

/// Contents of the buffers, the position that was set last, and each GPU's full KV
/// chunks. KV chunks are addressed in bytes, all else in elements.
#[verifier::reject_recursive_types(V)]
pub struct Memory<V> {
    pub value: spec_fn(Buf, int) -> V,
    pub position: u32,
    pub past: spec_fn(usize) -> Seq<spec_fn(int) -> V>,
}

/// How far an address is from that of the element `i` places before.
pub open spec fn distance(b: Buf, i: int) -> int {
    if b is KvChunk {
        4 * i
    } else {
        i
    }
}

/// Address of element `i` from a place on.
pub open spec fn address(at: Loc, i: int) -> int {
    at.offset + distance(at.buf, i)
}

/// Element `i` from a place on.
pub open spec fn get<V>(s: Memory<V>, at: Loc, i: int) -> V {
    (s.value)(at.buf, address(at, i))
}

/// `len` elements from a place on.
pub open spec fn vector<V>(s: Memory<V>, at: Loc, len: nat) -> Seq<V> {
    Seq::new(len, |i: int| get(s, at, i))
}

/// Whether an address belongs to one of `len` elements from a place on.
pub open spec fn covers(at: Loc, len: int, b: Buf, x: int) -> bool {
    b == at.buf && at.offset <= x < address(at, len)
}

/// `len` elements from a place on replaced. Nothing is known of an address that lies
/// inside one of them.
pub open spec fn put<V>(s: Memory<V>, at: Loc, len: int, f: spec_fn(int) -> V) -> Memory<V> {
    Memory {
        value: |b: Buf, x: int|
            if covers(at, len, b, x) {
                if !(b is KvChunk) {
                    f(x - at.offset)
                } else if (x - at.offset) % 4 == 0 {
                    f((x - at.offset) / 4)
                } else {
                    arbitrary()
                }
            } else {
                (s.value)(b, x)
            },
        ..s
    }
}

/// Head `h` of a vector of heads.
pub open spec fn head<V>(x: Seq<V>, h: int, dim: nat) -> Seq<V> {
    Seq::new(dim, |i: int| x[h * dim + i])
}

/// A plane of a chunk: from `offset` on, head by head, `tokens` rows of `dim` floats.
pub open spec fn plane_of<V>(
    chunk: spec_fn(int) -> V,
    offset: int,
    heads: nat,
    tokens: nat,
    dim: nat,
) -> Plane<V> {
    Seq::new(
        heads,
        |h: int|
            Seq::new(
                tokens,
                |r: int| Seq::new(dim, |i: int| chunk(offset + ((h * tokens + r) * dim + i) * 4)),
            ),
    )
}

/// The chunk that a GPU is filling.
pub open spec fn open_chunk<V>(s: Memory<V>, gpu: usize) -> spec_fn(int) -> V {
    |x: int| (s.value)(Buf::KvChunk { gpu }, x)
}

/// One plane of all chunks of a GPU, the one that is being filled last.
pub open spec fn planes<V>(
    s: Memory<V>,
    gpu: usize,
    offset: int,
    heads: nat,
    tokens: nat,
    dim: nat,
) -> Seq<Plane<V>> {
    let full = (s.past)(gpu);
    Seq::new(full.len(), |c: int| plane_of(full[c], offset, heads, tokens, dim)).push(
        plane_of(open_chunk(s, gpu), offset, heads, tokens, dim),
    )
}

/// What a channel remembers.
pub open spec fn taps<V>(s: Memory<V>, state: Loc, channel: int, len: nat) -> Seq<V> {
    Seq::new(len, |j: int| get(s, state, channel * len + j))
}

/// The contents after one operation. Nothing is known after an operation that no mixer
/// and no dense part uses.
pub open spec fn step<V>(a: Mixing<V>, s: Memory<V>, op: Op) -> Memory<V> {
    match op {
        Op::Embedding { out, token, dim } => put(
            s,
            out,
            dim as int,
            |i: int| (a.embedding)(token, i),
        ),
        Op::RmsNorm { out, input, weight, dim, eps, one_plus_w } => {
            let x = vector(s, input, dim as nat);
            put(s, out, dim as int, |i: int| (a.norm)(x, Norm { weight, eps, one_plus_w }, i))
        },
        Op::Copy { dst, src, len } => put(s, dst, len as int, |i: int| get(s, src, i)),
        Op::Linear { out, matrix, input, out_dim, in_dim } => {
            let x = vector(s, input, in_dim as nat);
            put(s, out, out_dim as int, |i: int| (a.product)(matrix, x, i))
        },
        Op::SiluMul { out, gate, up, len } => put(
            s,
            out,
            len as int,
            |i: int| (a.silu_mul)(get(s, gate, i), get(s, up, i)),
        ),
        Op::ResidualAdd { out, a: left, b: right, len } => put(
            s,
            out,
            len as int,
            |i: int| (a.sum)(get(s, left, i), get(s, right, i)),
        ),
        Op::CausalConv1d { state, input, weight, out, channels, kernel } => {
            let len = (kernel - 1) as nat;
            let outputs = put(
                s,
                out,
                channels as int,
                |c: int| (a.convolved)(weight, c, taps(s, state, c, len), get(s, input, c)),
            );
            put(
                outputs,
                state,
                channels * len,
                |x: int|
                    (a.remembered)(
                        taps(s, state, x / len as int, len),
                        get(s, input, x / len as int),
                        x % len as int,
                    ),
            )
        },
        Op::GdnGate { layer, heads } => put(
            s,
            ops::start(Buf::GateGdn),
            heads as int,
            |h: int|
                (a.decay)(
                    Weight::GdnALog { layer },
                    Weight::GdnDtBias { layer },
                    h,
                    get(s, ops::start(Buf::AProj), h),
                ),
        ),
        Op::GdnRecurrent { gdn, heads, key_dim, value_dim, group, states } => {
            let state = ops::start(Buf::RecurrentState { gdn });
            let keys = states as nat * key_dim as nat;
            let values = heads as nat * value_dim as nat;
            let kept = states as nat * key_dim as nat * value_dim as nat;
            let r = Recurrence {
                heads,
                key_dim,
                value_dim,
                group,
                q: vector(s, ops::start(Buf::QGdn), keys),
                k: vector(s, ops::start(Buf::KGdn), keys),
                v: vector(s, ops::start(Buf::VGdn), values),
                decay: vector(s, ops::start(Buf::GateGdn), heads as nat),
                strength: vector(s, ops::start(Buf::BProj), heads as nat),
                state: vector(s, state, kept),
            };
            let outputs = put(
                s,
                ops::start(Buf::RecurrentOut),
                values as int,
                |i: int| (a.recurrent)(r, i),
            );
            put(outputs, state, kept as int, |i: int| (a.new_state)(r, i))
        },
        Op::RmsNormGated { layer, heads, dim, eps } => {
            let len = heads as nat * dim as nat;
            let x = vector(s, ops::start(Buf::RecurrentOut), len);
            let z = vector(s, ops::start(Buf::ZProj), len);
            put(
                s,
                ops::start(Buf::NormedGated),
                len as int,
                |i: int|
                    (a.gated_norm)(
                        head(x, i / dim as int, dim as nat),
                        head(z, i / dim as int, dim as nat),
                        Weight::GdnOutputNorm { layer },
                        eps,
                        i % dim as int,
                    ),
            )
        },
        Op::QkNorm { layer, q_heads, kv_heads, head_dim, eps } => {
            let dim = head_dim as nat;
            let q = vector(s, ops::start(Buf::QAttn), q_heads as nat * dim);
            let k = vector(s, ops::start(Buf::KAttn), kv_heads as nat * dim);
            let t = put(
                s,
                ops::start(Buf::QAttn),
                q.len() as int,
                |i: int|
                    (a.head_norm)(
                        head(q, i / dim as int, dim),
                        Weight::QNorm { layer },
                        eps,
                        i % dim as int,
                    ),
            );
            put(
                t,
                ops::start(Buf::KAttn),
                k.len() as int,
                |i: int|
                    (a.head_norm)(
                        head(k, i / dim as int, dim),
                        Weight::KNorm { layer },
                        eps,
                        i % dim as int,
                    ),
            )
        },
        Op::Rope { q_heads, kv_heads, head_dim, rope_dim, section0, section1, section2 } => {
            let dim = head_dim as nat;
            let how = Rotation { head_dim, rope_dim, sections: (section0, section1, section2) };
            let q = vector(s, ops::start(Buf::QAttn), q_heads as nat * dim);
            let k = vector(s, ops::start(Buf::KAttn), kv_heads as nat * dim);
            let t = put(
                s,
                ops::start(Buf::QAttn),
                q.len() as int,
                |i: int|
                    (a.rotated)(head(q, i / dim as int, dim), how, s.position, i % dim as int),
            );
            put(
                t,
                ops::start(Buf::KAttn),
                k.len() as int,
                |i: int|
                    (a.rotated)(head(k, i / dim as int, dim), how, s.position, i % dim as int),
            )
        },
        Op::Deinterleave { q, gate, input, heads, head_dim } => {
            let dim = head_dim as int;
            let x = vector(s, input, (heads * (2 * head_dim)) as nat);
            let t = put(
                s,
                q,
                heads * head_dim,
                |i: int| x[(i / dim) * (2 * dim) + i % dim],
            );
            put(
                t,
                gate,
                heads * head_dim,
                |i: int| x[(i / dim) * (2 * dim) + dim + i % dim],
            )
        },
        Op::PagedAttention {
            out,
            q,
            gpu,
            q_heads,
            kv_heads,
            head_dim,
            seq_len,
            chunk_tokens,
            rope_dim,
            k_offset,
            v_offset,
            k_norm,
            rotary,
            q_head_start,
            local_q_heads,
        } => {
            let dim = head_dim as nat;
            let queries = vector(s, q, local_q_heads as nat * dim);
            let keys = planes(
                s,
                gpu,
                k_offset as int,
                kv_heads as nat,
                chunk_tokens as nat,
                dim,
            );
            let values = planes(
                s,
                gpu,
                v_offset as int,
                kv_heads as nat,
                chunk_tokens as nat,
                dim,
            );
            let how = Attending { q_heads, kv_heads, head_dim, seq_len, rope_dim, k_norm, rotary };
            put(
                s,
                out,
                local_q_heads * head_dim,
                |i: int|
                    (a.attended)(
                        q_head_start + i / dim as int,
                        head(queries, i / dim as int, dim),
                        keys,
                        values,
                        how,
                        i % dim as int,
                    ),
            )
        },
        Op::OutputGate { out, attn, gate, len } => put(
            s,
            out,
            len as int,
            |i: int| (a.gated)(get(s, attn, i), get(s, gate, i)),
        ),
        Op::SetPosition { position } => Memory { position, ..s },
        Op::Sync => s,
        Op::Nop => s,
        _ => Memory { value: |b: Buf, x: int| arbitrary(), position: arbitrary(), ..s },
    }
}

/// The contents after the first `i` operations of a list.
pub open spec fn after<V>(a: Mixing<V>, s: Memory<V>, list: Seq<Op>, i: nat) -> Memory<V>
    decreases i,
{
    if i == 0 {
        s
    } else {
        step(a, after(a, s, list, (i - 1) as nat), list[i - 1])
    }
}

/// The contents after a list of operations.
pub open spec fn run<V>(a: Mixing<V>, s: Memory<V>, list: Seq<Op>) -> Memory<V> {
    after(a, s, list, list.len())
}

/// The hidden state of the token.
pub open spec fn hidden<V>(s: Memory<V>, config: &ModelConfig) -> Seq<V> {
    Seq::new(config.hidden_size as nat, |i: int| (s.value)(Buf::Hidden, i))
}

/// The normalised hidden state that a mixer reads.
pub open spec fn normed<V>(a: Mixing<V>, config: &ModelConfig, layer: usize, x: Seq<V>) -> Seq<V> {
    let how = Norm {
        weight: Weight::InputNorm { layer },
        eps: config.rms_norm_eps,
        one_plus_w: config.rms_norm_one_plus_w,
    };
    Seq::new(config.hidden_size as nat, |i: int| (a.norm)(x, how, i))
}

/// The first `len` rows of a weight times a vector.
pub open spec fn times<V>(a: Mixing<V>, w: Weight, x: Seq<V>, len: nat) -> Seq<V> {
    Seq::new(len, |i: int| (a.product)(ops::whole(w), x, i))
}

/// The operations of a list of instructions.
pub open spec fn work(list: Seq<Inst>) -> Seq<Op> {
    list.map_values(|i: Inst| i.op)
}

proof fn lemma_after_prefix<V>(a: Mixing<V>, s: Memory<V>, p: Seq<Op>, q: Seq<Op>, i: nat)
    requires
        i <= p.len(),
    ensures
        after(a, s, p + q, i) == after(a, s, p, i),
    decreases i,
{
    if i > 0 {
        lemma_after_prefix(a, s, p, q, (i - 1) as nat);
        assert((p + q)[i - 1] == p[i - 1]);
    }
}

proof fn lemma_after_joined<V>(a: Mixing<V>, s: Memory<V>, p: Seq<Op>, q: Seq<Op>, j: nat)
    requires
        j <= q.len(),
    ensures
        after(a, s, p + q, p.len() + j) == after(a, run(a, s, p), q, j),
    decreases j,
{
    if j == 0 {
        lemma_after_prefix(a, s, p, q, p.len());
    } else {
        lemma_after_joined(a, s, p, q, (j - 1) as nat);
        assert((p + q)[p.len() + j - 1] == q[j - 1]);
    }
}

/// Two lists run one after the other.
pub proof fn lemma_run_joined<V>(a: Mixing<V>, s: Memory<V>, p: Seq<Op>, q: Seq<Op>)
    ensures
        run(a, s, p + q) == run(a, run(a, s, p), q),
{
    lemma_after_joined(a, s, p, q, q.len());
}

/// An empty list leaves everything as it is.
pub proof fn lemma_run_none<V>(a: Mixing<V>, s: Memory<V>)
    ensures
        run(a, s, Seq::empty()) == s,
{
}

/// A list of one operation.
pub proof fn lemma_run_one<V>(a: Mixing<V>, s: Memory<V>, op: Op)
    ensures
        run(a, s, seq![op]) == step(a, s, op),
{
    reveal_with_fuel(after, 2);
}

/// A list of two operations.
pub proof fn lemma_run_two<V>(a: Mixing<V>, s: Memory<V>, first: Op, second: Op)
    ensures
        run(a, s, seq![first, second]) == step(a, step(a, s, first), second),
{
    reveal_with_fuel(after, 3);
}

} // verus!
