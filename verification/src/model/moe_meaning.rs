//! What the operations of an expert layer compute, over any arithmetic.

use vstd::prelude::*;
use crate::ops::{Buf, Loc, Op, WLoc, Weight, ONE_F32};

verus! {

/// How a vector is normalised.
pub struct Norm {
    pub weight: Weight,
    pub eps: u32,
    pub one_plus_w: bool,
}

/// How a token's experts are chosen from its scores.
pub struct Router {
    pub bias: Option<Weight>,
    pub k: usize,
    pub mode: u32,
    pub scaling: u32,
}

/// Element arithmetic, given element by element of each result.
#[verifier::reject_recursive_types(V)]
pub struct Arithmetic<V> {
    pub norm: spec_fn(Seq<V>, Norm, int) -> V,
    /// A matrix row times a vector.
    pub product: spec_fn(WLoc, Seq<V>, int) -> V,
    pub silu_mul: spec_fn(V, V) -> V,
    pub relu_sq: spec_fn(V) -> V,
    pub scaled: spec_fn(u32, V) -> V,
    /// A value scaled by how a vector answers to a weight.
    pub gated: spec_fn(Weight, Seq<V>, V) -> V,
    pub zero: V,
    pub sum: spec_fn(V, V) -> V,
    /// The expert at a place of a token's routing, and its share.
    pub expert: spec_fn(Seq<V>, Router, int) -> i32,
    pub share: spec_fn(Seq<V>, Router, int) -> u32,
}

impl<V> Arithmetic<V> {
    /// Summands may come in any order.
    #[verifier::opaque]
    pub open spec fn order_free(&self) -> bool {
        forall|a: V, x: V, y: V| #[trigger]
            (self.sum)((self.sum)(a, x), y) == (self.sum)((self.sum)(a, y), x)
    }

    /// Sums are exact: summands may come in any order and grouping, and neither an
    /// empty sum nor a factor of one changes anything.
    #[verifier::opaque]
    pub open spec fn exact(&self) -> bool {
        &&& self.order_free()
        &&& forall|a: V, x: V, y: V| #[trigger]
            (self.sum)(a, (self.sum)(x, y)) == (self.sum)((self.sum)(a, x), y)
        &&& (self.sum)(self.zero, self.zero) == self.zero
        &&& forall|v: V| #[trigger] (self.scaled)(ONE_F32, v) == v
    }

    /// The router names experts that have a score.
    pub open spec fn routes(&self) -> bool {
        forall|scores: Seq<V>, r: Router, j: int|
            0 <= j < r.k ==> 0 <= #[trigger] (self.expert)(scores, r, j) < scores.len()
    }
}

/// Contents of the buffers: elements, expert numbers and shares, and the lists of
/// tokens that were uploaded last.
pub struct Contents<V> {
    pub value: spec_fn(Buf, int) -> V,
    pub ids: spec_fn(Buf, int) -> i32,
    pub shares: spec_fn(Buf, int) -> u32,
    pub listed: Seq<i32>,
    pub listed_shares: Seq<u32>,
}

/// Element `i` of row `t` in a buffer of rows.
pub open spec fn cell<V>(s: Contents<V>, b: Buf, t: int, width: int, i: int) -> V {
    (s.value)(b, t * width + i)
}

/// Row `t` of a buffer of rows.
pub open spec fn row_at<V>(s: Contents<V>, b: Buf, t: int, width: nat) -> Seq<V> {
    Seq::new(width, |i: int| cell(s, b, t, width as int, i))
}

/// `len` elements from a place on.
pub open spec fn read<V>(s: Contents<V>, at: Loc, len: nat) -> Seq<V> {
    Seq::new(len, |i: int| (s.value)(at.buf, at.offset + i))
}

pub open spec fn within(at: Loc, len: int, b: Buf, i: int) -> bool {
    b == at.buf && at.offset <= i < at.offset + len
}

/// `len` elements from a place on replaced.
pub open spec fn written<V>(
    s: Contents<V>,
    at: Loc,
    len: int,
    f: spec_fn(int) -> V,
) -> Contents<V> {
    Contents {
        value: |b: Buf, i: int|
            if within(at, len, b, i) {
                f(i - at.offset)
            } else {
                (s.value)(b, i)
            },
        ..s
    }
}

/// What element `x` becomes when the first `rows` listed rows are added, each with its
/// share, at their tokens.
pub open spec fn scattered<V>(
    a: Arithmetic<V>,
    acc: V,
    input: spec_fn(int) -> V,
    dim: int,
    tokens: Seq<i32>,
    shares: Seq<u32>,
    x: int,
    rows: nat,
) -> V
    decreases rows,
{
    if rows == 0 {
        acc
    } else {
        let r = rows - 1;
        let before = scattered(a, acc, input, dim, tokens, shares, x, r as nat);
        if tokens[r] == x / dim {
            (a.sum)(before, (a.scaled)(shares[r], input(r * dim + x % dim)))
        } else {
            before
        }
    }
}

/// The contents after one operation. Rows of a batch are handled as if each were
/// alone. Nothing is known after an operation that no expert layer uses.
pub open spec fn step<V>(a: Arithmetic<V>, s: Contents<V>, op: Op) -> Contents<V> {
    match op {
        Op::Copy { dst, src, len } => written(
            s,
            dst,
            len as int,
            |i: int| (s.value)(src.buf, src.offset + i),
        ),
        Op::Zero { dst, len } => written(s, dst, len as int, |i: int| a.zero),
        Op::RmsNorm { out, input, weight, dim, eps, one_plus_w } => {
            let x = read(s, input, dim as nat);
            written(
                s,
                out,
                dim as int,
                |i: int| (a.norm)(x, Norm { weight, eps, one_plus_w }, i),
            )
        },
        Op::Linear { out, matrix, input, out_dim, in_dim } => {
            let x = read(s, input, in_dim as nat);
            written(s, out, out_dim as int, |i: int| (a.product)(matrix, x, i))
        },
        Op::LinearBatched { out, matrix, input, out_dim, in_dim, rows } => written(
            s,
            out,
            rows * out_dim,
            |x: int|
                (a.product)(
                    matrix,
                    Seq::new(
                        in_dim as nat,
                        |c: int| (s.value)(
                            input.buf,
                            input.offset + ((x / out_dim as int) * in_dim + c),
                        ),
                    ),
                    x % out_dim as int,
                ),
        ),
        Op::SiluMul { out, gate, up, len } => written(
            s,
            out,
            len as int,
            |i: int|
                (a.silu_mul)(
                    (s.value)(gate.buf, gate.offset + i),
                    (s.value)(up.buf, up.offset + i),
                ),
        ),
        Op::ReluSq { out, input, len } => written(
            s,
            out,
            len as int,
            |i: int| (a.relu_sq)((s.value)(input.buf, input.offset + i)),
        ),
        Op::ScaleAdd { dst, src, scale, len } => written(
            s,
            dst,
            len as int,
            |i: int|
                (a.sum)(
                    (s.value)(dst.buf, dst.offset + i),
                    (a.scaled)(scale, (s.value)(src.buf, src.offset + i)),
                ),
        ),
        Op::DotSigmoidScaleAdd { dst, src, input, weight, len } => {
            let x = read(s, input, len as nat);
            written(
                s,
                dst,
                len as int,
                |i: int|
                    (a.sum)(
                        (s.value)(dst.buf, dst.offset + i),
                        (a.gated)(weight, x, (s.value)(src.buf, src.offset + i)),
                    ),
            )
        },
        Op::ResidualAdd { out, a: left, b: right, len } => written(
            s,
            out,
            len as int,
            |i: int|
                (a.sum)(
                    (s.value)(left.buf, left.offset + i),
                    (s.value)(right.buf, right.offset + i),
                ),
        ),
        Op::MoeGate { scores, ids, weights, bias, num_experts, k, mode, scaling } => {
            let x = read(s, scores, num_experts as nat);
            let r = Router { bias, k, mode, scaling };
            Contents {
                ids: |b: Buf, i: int|
                    if within(ids, k as int, b, i) {
                        (a.expert)(x, r, i - ids.offset)
                    } else {
                        (s.ids)(b, i)
                    },
                shares: |b: Buf, i: int|
                    if within(weights, k as int, b, i) {
                        (a.share)(x, r, i - weights.offset)
                    } else {
                        (s.shares)(b, i)
                    },
                ..s
            }
        },
        Op::Gather { out, input, rows, dim } => written(
            s,
            out,
            rows * dim,
            |x: int|
                (s.value)(
                    input.buf,
                    input.offset + (s.listed[x / dim as int] * dim + x % dim as int),
                ),
        ),
        Op::ScatterAdd { out, input, rows, dim } => Contents {
            value: |b: Buf, i: int|
                if b == out.buf && out.offset <= i {
                    scattered(
                        a,
                        (s.value)(b, i),
                        |y: int| (s.value)(input.buf, input.offset + y),
                        dim as int,
                        s.listed,
                        s.listed_shares,
                        i - out.offset,
                        rows as nat,
                    )
                } else {
                    (s.value)(b, i)
                },
            ..s
        },
        Op::Sync => s,
        Op::Nop => s,
        _ => Contents {
            value: |b: Buf, i: int| arbitrary(),
            ids: |b: Buf, i: int| arbitrary(),
            shares: |b: Buf, i: int| arbitrary(),
            ..s
        },
    }
}

/// The contents after the first `i` operations of a list.
pub open spec fn after<V>(a: Arithmetic<V>, s: Contents<V>, list: Seq<Op>, i: nat) -> Contents<V>
    decreases i,
{
    if i == 0 {
        s
    } else {
        step(a, after(a, s, list, (i - 1) as nat), list[i - 1])
    }
}

/// The contents after a list of operations.
pub open spec fn run<V>(a: Arithmetic<V>, s: Contents<V>, list: Seq<Op>) -> Contents<V> {
    after(a, s, list, list.len())
}

proof fn lemma_after_prefix<V>(
    a: Arithmetic<V>,
    s: Contents<V>,
    p: Seq<Op>,
    q: Seq<Op>,
    i: nat,
)
    requires
        i <= p.len(),
    ensures
        after(a, s, p + q, i) == after(a, s, p, i),
    decreases i,
{
    if i > 0 {
        lemma_after_prefix(a, s, p, q, (i - 1) as nat);
        assert((p + q)[i - 1] == p[i - 1]);
    }
}

proof fn lemma_after_joined<V>(
    a: Arithmetic<V>,
    s: Contents<V>,
    p: Seq<Op>,
    q: Seq<Op>,
    j: nat,
)
    requires
        j <= q.len(),
    ensures
        after(a, s, p + q, p.len() + j) == after(a, run(a, s, p), q, j),
    decreases j,
{
    if j == 0 {
        lemma_after_prefix(a, s, p, q, p.len());
    } else {
        lemma_after_joined(a, s, p, q, (j - 1) as nat);
        assert((p + q)[p.len() + j - 1] == q[j - 1]);
    }
}

/// Two lists run one after the other.
pub proof fn lemma_run_joined<V>(a: Arithmetic<V>, s: Contents<V>, p: Seq<Op>, q: Seq<Op>)
    ensures
        run(a, s, p + q) == run(a, run(a, s, p), q),
{
    lemma_after_joined(a, s, p, q, q.len());
}

/// A cell's place gives its row and column.
pub proof fn lemma_cell_place(t: int, width: int, i: int)
    requires
        0 <= t,
        0 <= i < width,
    ensures
        0 <= t * width,
        (t * width + i) / width == t,
        (t * width + i) % width == i,
{
    assert(0 <= t * width) by (nonlinear_arith)
        requires
            0 <= t,
            0 < width,
    ;
    vstd::arithmetic::div_mod::lemma_fundamental_div_mod_converse(t * width + i, width, t, i);
}

/// A cell is in another row's place exactly when the rows are the same.
pub proof fn lemma_rows_apart(t: int, u: int, width: int, i: int)
    requires
        0 <= i < width,
    ensures
        u * width <= t * width + i < u * width + width <==> t == u,
        t < u <==> t * width + i < u * width,
{
    if t < u {
        assert(t * width + width <= u * width) by (nonlinear_arith)
            requires
                t + 1 <= u,
                0 < width,
        ;
    } else if u < t {
        assert(u * width + width <= t * width) by (nonlinear_arith)
            requires
                u + 1 <= t,
                0 < width,
        ;
    }
}

} // verus!
