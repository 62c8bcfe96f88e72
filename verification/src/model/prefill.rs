//! Prefill plans: how a prompt is cut into chunks, how its tokens are embedded, and
//! how the layers are walked when expert layers interrupt the compiled segments.

use vstd::prelude::*;
use crate::arith;
use crate::config::{LayerConfig, LayerType, ModelConfig};
use crate::error::{missing, ModelError};
use crate::ops;
use crate::ops::{blocks_for, inst, Buf, Inst, Loc, Op, CHUNK_TOKENS};

verus! {

/// Which prefill path a prompt takes.
#[derive(Clone, Copy, Debug, PartialEq, Eq, Structural)]
pub enum PrefillPath {
    /// Compiled segments with expert layers in between.
    Batched,
    /// One compiled program per chunk.
    Paged,
}

/// A piece of the prompt: tokens `offset..offset + len`, the first at `start_pos`.
#[derive(Clone, Copy, Debug, PartialEq, Eq, Structural)]
pub struct ChunkSpan {
    pub offset: usize,
    pub len: usize,
    pub start_pos: u32,
}

/// Chooses the path; an empty prompt is an error.
pub fn prefill(num_tokens: usize, has_moe: bool) -> (r: Result<PrefillPath, ModelError>)
    ensures
        r is Err <==> num_tokens == 0,
        r matches Err(e) ==> e.is_missing("empty token sequence"@),
        r matches Ok(p) ==> p == if has_moe {
            PrefillPath::Batched
        } else {
            PrefillPath::Paged
        },
{
    if num_tokens == 0 {
        return Err(missing("empty token sequence"));
    }
    if has_moe {
        Ok(PrefillPath::Batched)
    } else {
        Ok(PrefillPath::Paged)
    }
}

/// Piece `i` of a prompt of `total` tokens that starts at position `seq_len`.
pub open spec fn span(total: nat, seq_len: nat, i: nat) -> ChunkSpan {
    let offset = i * CHUNK_TOKENS as nat;
    ChunkSpan {
        offset: offset as usize,
        len: (if offset + CHUNK_TOKENS <= total {
            CHUNK_TOKENS as nat
        } else {
            (total - offset) as nat
        }) as usize,
        start_pos: (seq_len + offset) as u32,
    }
}

/// How many pieces a prompt is cut into.
pub open spec fn span_count(total: nat) -> nat {
    arith::ceil_div(total as int, CHUNK_TOKENS as int) as nat
}

/// The pieces follow one another and cover the prompt; none is empty or longer
/// than a chunk.
pub proof fn law_spans_cover_prompt(total: nat, seq_len: nat, i: nat)
    requires
        total <= usize::MAX,
        seq_len + total <= u32::MAX,
        i < span_count(total),
    ensures
        ({
            let s = span(total, seq_len, i);
            &&& 0 < s.len <= CHUNK_TOKENS
            &&& s.start_pos == seq_len + s.offset
            &&& i == 0 ==> s.offset == 0
            &&& i + 1 < span_count(total) ==> s.offset + s.len == span(total, seq_len, i + 1).offset
            &&& i + 1 == span_count(total) ==> s.offset + s.len == total
        }),
{
    arith::lemma_ceil_div(total as int, CHUNK_TOKENS as int);
}

/// All pieces of a prompt.
pub open spec fn spans(total: nat, seq_len: nat) -> Seq<ChunkSpan> {
    Seq::new(span_count(total), |i: int| span(total, seq_len, i as nat))
}

/// The tokens of piece `i`.
pub open spec fn piece(tokens: Seq<u32>, i: int) -> Seq<u32> {
    let s = span(tokens.len(), 0, i as nat);
    tokens.subrange(s.offset as int, s.offset + s.len)
}

/// Cuts a prompt into chunks.
pub fn prefill_spans(total: usize, seq_len: u32) -> (r: Vec<ChunkSpan>)
    requires
        seq_len + total <= u32::MAX,
    ensures
        r@ == spans(total as nat, seq_len as nat),
{
    proof {
        arith::lemma_ceil_div(total as int, CHUNK_TOKENS as int);
    }
    let mut r: Vec<ChunkSpan> = Vec::new();
    let mut offset: usize = 0;
    while offset < total
        invariant
            offset <= total,
            seq_len + total <= u32::MAX,
            span_count(total as nat) == total / CHUNK_TOKENS + if total % CHUNK_TOKENS == 0 {
                0int
            } else {
                1int
            },
            r@.len() <= span_count(total as nat),
            offset == r@.len() * CHUNK_TOKENS || (offset == total && r@.len() == span_count(
                total as nat,
            )),
            forall|i: int|
                0 <= i < r@.len() ==> r@[i] == span(total as nat, seq_len as nat, i as nat),
        decreases total - offset,
    {
        let end: usize = if total - offset > CHUNK_TOKENS {
            offset + CHUNK_TOKENS
        } else {
            total
        };
        r.push(ChunkSpan { offset, len: end - offset, start_pos: seq_len + offset as u32 });
        offset = end;
    }
    assert(r@ =~= spans(total as nat, seq_len as nat));
    r
}

/// Embeds the first `n` tokens of a chunk, row by row.
pub open spec fn embed_insts(config: &ModelConfig, tokens: Seq<u32>) -> Seq<Inst> {
    let hs = config.hidden_size as nat;
    Seq::new(
        tokens.len(),
        |t: int|
            ops::plain(
                ops::blocks(hs),
                Op::Embedding {
                    out: Loc { buf: Buf::PrefillHidden, offset: (t * hs) as usize },
                    token: tokens[t],
                    dim: config.hidden_size,
                },
            ),
    )
}

/// Plans the embedding of a chunk.
pub fn embed_chunk(config: &ModelConfig, tokens: &[u32]) -> (r: Vec<Inst>)
    requires
        tokens@.len() * config.hidden_size <= usize::MAX,
    ensures
        r@ == embed_insts(config, tokens@),
{
    let n: usize = tokens.len();
    let hs: usize = config.hidden_size;
    let mut r: Vec<Inst> = Vec::new();
    let mut t: usize = 0;
    while t < n
        invariant
            t <= n,
            n == tokens@.len(),
            hs == config.hidden_size,
            n * hs <= usize::MAX,
            r@.len() == t,
            forall|i: int| 0 <= i < t ==> r@[i] == embed_insts(config, tokens@)[i],
        decreases n - t,
    {
        proof {
            arith::lemma_scaled_index(t as int, n as int, hs as int);
        }
        r.push(
            inst(
                blocks_for(hs),
                Op::Embedding {
                    out: Loc { buf: Buf::PrefillHidden, offset: t * hs },
                    token: tokens[t],
                    dim: hs,
                },
            ),
        );
        t += 1;
    }
    assert(r@ =~= embed_insts(config, tokens@));
    r
}

/// Plans the embedding of every piece of a prompt.
pub fn embed_spans(config: &ModelConfig, tokens: &[u32], pieces: &Vec<ChunkSpan>) -> (r: Vec<
    Vec<Inst>,
>)
    requires
        CHUNK_TOKENS * config.hidden_size <= usize::MAX,
        tokens@.len() <= u32::MAX,
        exists|seq_len: nat| pieces@ == #[trigger] spans(tokens@.len(), seq_len),
    ensures
        r@.len() == pieces@.len(),
        forall|i: int|
            0 <= i < r@.len() ==> (#[trigger] r@[i])@ == embed_insts(config, piece(tokens@, i)),
{
    let ghost seq_len = choose|seq_len: nat| pieces@ == #[trigger] spans(tokens@.len(), seq_len);
    let mut r: Vec<Vec<Inst>> = Vec::new();
    let mut i: usize = 0;
    while i < pieces.len()
        invariant
            i <= pieces@.len(),
            CHUNK_TOKENS * config.hidden_size <= usize::MAX,
            tokens@.len() <= u32::MAX,
            pieces@ == spans(tokens@.len(), seq_len),
            r@.len() == i,
            forall|k: int|
                0 <= k < r@.len() ==> (#[trigger] r@[k])@ == embed_insts(
                    config,
                    piece(tokens@, k),
                ),
        decreases pieces@.len() - i,
    {
        let s: ChunkSpan = pieces[i];
        proof {
            law_spans_cover_prompt(tokens@.len(), 0, i as nat);
            arith::lemma_mul_mono(s.len as int, CHUNK_TOKENS as int, config.hidden_size as int);
        }
        let part: &[u32] = vstd::slice::slice_subrange(tokens, s.offset, s.offset + s.len);
        assert(part@ =~= piece(tokens@, i as int));
        r.push(embed_chunk(config, part));
        i += 1;
    }
    r
}

// ---- walking the layers ----

/// One step of a chunk's way through the layers.
#[derive(Clone, Copy, Debug, PartialEq, Eq, Structural)]
pub enum PrefillStep {
    /// Compile and run layers `from..to`; with `head`, the final norm and LM head too.
    Segment { from: usize, to: usize, head: bool },
    /// Run the expert layer for the whole chunk.
    Moe { layer: usize },
    /// Record the hidden state of the last token after a layer.
    Capture { layer: usize },
    /// Final norm and LM head on their own.
    Head,
}

/// A mixer whose feed-forward part is run by experts.
pub open spec fn mixer_with_experts(l: LayerConfig) -> bool {
    l.ffn_type.is_moe() && (l.layer_type == LayerType::Attention || l.layer_type == LayerType::Gdn)
}

/// A layer that a compiled segment cannot contain.
pub open spec fn interrupts(l: LayerConfig) -> bool {
    l.layer_type == LayerType::MoeFfn || mixer_with_experts(l)
}

fn interrupts_exec(l: &LayerConfig) -> (r: bool)
    ensures
        r == interrupts(*l),
{
    l.layer_type == LayerType::MoeFfn || (l.ffn_type.moe() && (l.layer_type == LayerType::Attention
        || l.layer_type == LayerType::Gdn))
}

/// First layer at or after `i`, below `end`, that interrupts a segment; `end` if none.
pub open spec fn next_interrupt(layers: Seq<LayerConfig>, i: int, end: int) -> int
    decreases end - i,
{
    if i >= end || interrupts(layers[i]) {
        i
    } else {
        next_interrupt(layers, i + 1, end)
    }
}

/// A capture, when tracing.
pub open spec fn capture(tracing: bool, layer: int) -> Seq<PrefillStep> {
    if tracing {
        seq![PrefillStep::Capture { layer: layer as usize }]
    } else {
        Seq::empty()
    }
}

/// The steps that layer `i` gives rise to, and the layer after those it covers.
pub open spec fn steps_at(layers: Seq<LayerConfig>, i: int, end: int, tracing: bool) -> (Seq<
    PrefillStep,
>, int) {
    if layers[i].layer_type == LayerType::MoeFfn {
        (seq![PrefillStep::Moe { layer: i as usize }] + capture(tracing, i), i + 1)
    } else if mixer_with_experts(layers[i]) {
        let head = if i + 1 == end {
            seq![PrefillStep::Head]
        } else {
            Seq::empty()
        };
        (
            seq![
                PrefillStep::Segment { from: i as usize, to: (i + 1) as usize, head: false },
                PrefillStep::Moe { layer: i as usize },
            ] + capture(tracing, i) + head,
            i + 1,
        )
    } else {
        let to = next_interrupt(layers, i + 1, end);
        (seq![PrefillStep::Segment { from: i as usize, to: to as usize, head: to == end }], to)
    }
}

/// The steps from layer `i` on, up to layer `end`.
pub open spec fn walk(layers: Seq<LayerConfig>, i: int, end: int, tracing: bool) -> Seq<PrefillStep>
    decreases end - i,
{
    if i < 0 || i >= end {
        Seq::empty()
    } else {
        let (steps, next) = steps_at(layers, i, end, tracing);
        if next <= i || next > end {
            steps
        } else {
            steps + walk(layers, next, end, tracing)
        }
    }
}

/// A model that ends with a standalone expert layer still needs its head.
pub open spec fn closing(layers: Seq<LayerConfig>, end: int, tracing: bool) -> Seq<PrefillStep> {
    if layers[end - 1].layer_type == LayerType::MoeFfn {
        capture(tracing, end - 1) + seq![PrefillStep::Head]
    } else {
        Seq::empty()
    }
}

/// All steps of a chunk.
pub open spec fn chunk_steps(layers: Seq<LayerConfig>, end: int, tracing: bool) -> Seq<PrefillStep> {
    walk(layers, 0, end, tracing) + closing(layers, end, tracing)
}

proof fn lemma_next_interrupt(layers: Seq<LayerConfig>, i: int, end: int)
    requires
        i <= end,
    ensures
        i <= next_interrupt(layers, i, end) <= end,
        next_interrupt(layers, i, end) < end ==> interrupts(layers[next_interrupt(layers, i, end)]),
    decreases end - i,
{
    if i < end && !interrupts(layers[i]) {
        lemma_next_interrupt(layers, i + 1, end);
    }
}

proof fn lemma_append(a: Seq<PrefillStep>, b: Seq<PrefillStep>, c: Seq<PrefillStep>)
    ensures
        (a + b) + c == a + (b + c),
{
    assert((a + b) + c =~= a + (b + c));
}

/// Appends the steps of layer `i` and says which layer comes next.
fn push_steps(config: &ModelConfig, i: usize, tracing: bool, r: &mut Vec<PrefillStep>) -> (next:
    usize)
    requires
        i < config.num_layers <= config.layers@.len(),
    ensures
        ({
            let (steps, after) = steps_at(
                config.layers@,
                i as int,
                config.num_layers as int,
                tracing,
            );
            final(r)@ == old(r)@ + steps && next == after
        }),
        i < next <= config.num_layers,
{
    let n: usize = config.num_layers;
    let ghost layers = config.layers@;
    let ghost steps = steps_at(layers, i as int, n as int, tracing).0;
    if config.layers[i].layer_type == LayerType::MoeFfn {
        r.push(PrefillStep::Moe { layer: i });
        if tracing {
            r.push(PrefillStep::Capture { layer: i });
        }
        assert(r@ =~= old(r)@ + steps);
        i + 1
    } else if interrupts_exec(&config.layers[i]) {
        r.push(PrefillStep::Segment { from: i, to: i + 1, head: false });
        r.push(PrefillStep::Moe { layer: i });
        if tracing {
            r.push(PrefillStep::Capture { layer: i });
        }
        if i + 1 == n {
            r.push(PrefillStep::Head);
        }
        assert(r@ =~= old(r)@ + steps);
        i + 1
    } else {
        let mut to: usize = i + 1;
        while to < n && !interrupts_exec(&config.layers[to])
            invariant
                i < to <= n <= config.layers@.len(),
                layers == config.layers@,
                next_interrupt(layers, to as int, n as int) == next_interrupt(
                    layers,
                    i + 1,
                    n as int,
                ),
            ensures
                i < to <= n,
                to == next_interrupt(layers, i + 1, n as int),
            decreases n - to,
        {
            to += 1;
        }
        r.push(PrefillStep::Segment { from: i, to, head: to == n });
        assert(r@ =~= old(r)@ + steps);
        to
    }
}

/// Plans a chunk's way through the layers of a model with expert layers.
pub fn prefill_mixed_chunk_paged(config: &ModelConfig, tracing: bool) -> (r: Vec<PrefillStep>)
    requires
        0 < config.num_layers <= config.layers@.len(),
    ensures
        r@ == chunk_steps(config.layers@, config.num_layers as int, tracing),
{
    let n: usize = config.num_layers;
    let ghost layers = config.layers@;
    let mut r: Vec<PrefillStep> = Vec::new();
    let mut i: usize = 0;
    assert(r@ + walk(layers, 0, n as int, tracing) =~= walk(layers, 0, n as int, tracing));
    while i < n
        invariant
            i <= n,
            n == config.num_layers,
            n <= config.layers@.len(),
            layers == config.layers@,
            r@ + walk(layers, i as int, n as int, tracing) == walk(layers, 0, n as int, tracing),
        decreases n - i,
    {
        let ghost done = r@;
        let next: usize = push_steps(config, i, tracing, &mut r);
        proof {
            let steps = steps_at(layers, i as int, n as int, tracing).0;
            lemma_append(done, steps, walk(layers, next as int, n as int, tracing));
        }
        i = next;
    }
    assert(r@ + walk(layers, n as int, n as int, tracing) =~= r@);
    let ghost done = r@;
    if config.layers[n - 1].layer_type == LayerType::MoeFfn {
        if tracing {
            r.push(PrefillStep::Capture { layer: n - 1 });
        }
        r.push(PrefillStep::Head);
    }
    assert(r@ =~= done + closing(layers, n as int, tracing));
    r
}

/// Mixers a step runs, as a range of layers.
pub open spec fn mixers_run(s: PrefillStep) -> (int, int) {
    match s {
        PrefillStep::Segment { from, to, .. } => (from as int, to as int),
        _ => (0, 0),
    }
}

/// How often layer `l`'s mixer is run.
pub open spec fn mixer_runs(steps: Seq<PrefillStep>, l: int) -> nat
    decreases steps.len(),
{
    if steps.len() == 0 {
        0
    } else {
        let (from, to) = mixers_run(steps.last());
        mixer_runs(steps.drop_last(), l) + if from <= l < to {
            1nat
        } else {
            0nat
        }
    }
}

/// How often layer `l`'s experts are run.
pub open spec fn expert_runs(steps: Seq<PrefillStep>, l: int) -> nat
    decreases steps.len(),
{
    if steps.len() == 0 {
        0
    } else {
        expert_runs(steps.drop_last(), l) + if steps.last() == (PrefillStep::Moe {
            layer: l as usize,
        }) {
            1nat
        } else {
            0nat
        }
    }
}

/// How often the LM head is run.
pub open spec fn head_runs(steps: Seq<PrefillStep>) -> nat
    decreases steps.len(),
{
    if steps.len() == 0 {
        0
    } else {
        head_runs(steps.drop_last()) + match steps.last() {
            PrefillStep::Segment { head, .. } => if head {
                1nat
            } else {
                0nat
            },
            PrefillStep::Head => 1nat,
            _ => 0nat,
        }
    }
}

proof fn lemma_runs_concat(a: Seq<PrefillStep>, b: Seq<PrefillStep>, l: int)
    ensures
        mixer_runs(a + b, l) == mixer_runs(a, l) + mixer_runs(b, l),
        expert_runs(a + b, l) == expert_runs(a, l) + expert_runs(b, l),
        head_runs(a + b) == head_runs(a) + head_runs(b),
    decreases b.len(),
{
    if b.len() == 0 {
        assert(a + b =~= a);
    } else {
        assert((a + b).drop_last() =~= a + b.drop_last());
        lemma_runs_concat(a, b.drop_last(), l);
    }
}

proof fn lemma_runs_one(s: PrefillStep, l: int)
    ensures
        mixer_runs(seq![s], l) == (if mixers_run(s).0 <= l < mixers_run(s).1 {
            1nat
        } else {
            0nat
        }),
        expert_runs(seq![s], l) == (if s == (PrefillStep::Moe { layer: l as usize }) {
            1nat
        } else {
            0nat
        }),
        head_runs(seq![s]) == (match s {
            PrefillStep::Segment { head, .. } => if head {
                1nat
            } else {
                0nat
            },
            PrefillStep::Head => 1nat,
            _ => 0nat,
        }),
{
    reveal_with_fuel(mixer_runs, 2);
    reveal_with_fuel(expert_runs, 2);
    reveal_with_fuel(head_runs, 2);
    assert(seq![s].drop_last() =~= Seq::empty());
}

/// What a run of steps adds for layer `l`.
spec fn counts(steps: Seq<PrefillStep>, l: int) -> (nat, nat, nat) {
    (mixer_runs(steps, l), expert_runs(steps, l), head_runs(steps))
}

proof fn lemma_counts_concat(a: Seq<PrefillStep>, b: Seq<PrefillStep>, l: int)
    ensures
        counts(a + b, l) == (
            counts(a, l).0 + counts(b, l).0,
            counts(a, l).1 + counts(b, l).1,
            counts(a, l).2 + counts(b, l).2,
        ),
{
    lemma_runs_concat(a, b, l);
}

proof fn lemma_capture_counts(tracing: bool, i: int, l: int)
    ensures
        counts(capture(tracing, i), l) == (0nat, 0nat, 0nat),
{
    if tracing {
        lemma_runs_one(PrefillStep::Capture { layer: i as usize }, l);
    }
}

/// What the steps of layer `i` should add for layer `l`.
spec fn due(layers: Seq<LayerConfig>, i: int, next: int, end: int, l: int) -> (nat, nat, nat) {
    (
        if i <= l < next && layers[l].layer_type != LayerType::MoeFfn {
            1
        } else {
            0
        },
        if i <= l < next && interrupts(layers[l]) {
            1
        } else {
            0
        },
        if i < next && next == end && layers[end - 1].layer_type != LayerType::MoeFfn {
            1
        } else {
            0
        },
    )
}

proof fn lemma_moe_step(layers: Seq<LayerConfig>, i: int, end: int, tracing: bool, l: int)
    requires
        0 <= i < end <= layers.len(),
        end <= usize::MAX,
        0 <= l < end,
        layers[i].layer_type == LayerType::MoeFfn,
    ensures
        counts(steps_at(layers, i, end, tracing).0, l) == due(layers, i, i + 1, end, l),
{
    let moe = PrefillStep::Moe { layer: i as usize };
    lemma_runs_one(moe, l);
    lemma_capture_counts(tracing, i, l);
    lemma_counts_concat(seq![moe], capture(tracing, i), l);
}

proof fn lemma_mixed_step(layers: Seq<LayerConfig>, i: int, end: int, tracing: bool, l: int)
    requires
        0 <= i < end <= layers.len(),
        end <= usize::MAX,
        0 <= l < end,
        layers[i].layer_type != LayerType::MoeFfn,
        mixer_with_experts(layers[i]),
    ensures
        counts(steps_at(layers, i, end, tracing).0, l) == due(layers, i, i + 1, end, l),
{
    let seg = PrefillStep::Segment { from: i as usize, to: (i + 1) as usize, head: false };
    let moe = PrefillStep::Moe { layer: i as usize };
    let cap = capture(tracing, i);
    let head = if i + 1 == end {
        seq![PrefillStep::Head]
    } else {
        Seq::empty()
    };
    lemma_runs_one(seg, l);
    lemma_runs_one(moe, l);
    lemma_runs_one(PrefillStep::Head, l);
    lemma_capture_counts(tracing, i, l);
    assert(seq![seg, moe] =~= seq![seg] + seq![moe]);
    lemma_counts_concat(seq![seg], seq![moe], l);
    lemma_counts_concat(seq![seg, moe], cap, l);
    lemma_counts_concat(seq![seg, moe] + cap, head, l);
}

proof fn lemma_span_step(layers: Seq<LayerConfig>, i: int, end: int, tracing: bool, l: int)
    requires
        0 <= i < end <= layers.len(),
        end <= usize::MAX,
        0 <= l < end,
        !interrupts(layers[i]),
    ensures
        ({
            let (steps, next) = steps_at(layers, i, end, tracing);
            i < next <= end && counts(steps, l) == due(layers, i, next, end, l)
        }),
{
    let to = next_interrupt(layers, i + 1, end);
    lemma_next_interrupt(layers, i + 1, end);
    lemma_no_interrupt_between(layers, i + 1, end, l);
    lemma_no_interrupt_between(layers, i + 1, end, end - 1);
    lemma_runs_one(
        PrefillStep::Segment { from: i as usize, to: to as usize, head: to == end },
        l,
    );
}

proof fn lemma_walk_runs(layers: Seq<LayerConfig>, i: int, end: int, tracing: bool, l: int)
    requires
        0 <= i <= end <= layers.len(),
        end <= usize::MAX,
        0 <= l < end,
    ensures
        counts(walk(layers, i, end, tracing), l) == due(layers, i, end, end, l),
    decreases end - i,
{
    if i < end {
        let (steps, next) = steps_at(layers, i, end, tracing);
        if layers[i].layer_type == LayerType::MoeFfn {
            lemma_moe_step(layers, i, end, tracing, l);
        } else if mixer_with_experts(layers[i]) {
            lemma_mixed_step(layers, i, end, tracing, l);
        } else {
            lemma_span_step(layers, i, end, tracing, l);
        }
        lemma_walk_runs(layers, next, end, tracing, l);
        lemma_counts_concat(steps, walk(layers, next, end, tracing), l);
    }
}

proof fn lemma_no_interrupt_between(layers: Seq<LayerConfig>, i: int, end: int, l: int)
    requires
        0 <= i <= end <= layers.len(),
    ensures
        i <= l < next_interrupt(layers, i, end) ==> !interrupts(layers[l]),
    decreases end - i,
{
    if i < end && !interrupts(layers[i]) {
        lemma_no_interrupt_between(layers, i + 1, end, l);
    }
}

/// A chunk passes every mixer exactly once, every expert layer exactly once, and
/// the LM head exactly once, whatever the layer pattern.
pub proof fn law_every_layer_once(layers: Seq<LayerConfig>, end: int, tracing: bool, l: int)
    requires
        0 <= l < end <= layers.len(),
        end <= usize::MAX,
    ensures
        ({
            let steps = chunk_steps(layers, end, tracing);
            &&& mixer_runs(steps, l) == (if layers[l].layer_type == LayerType::MoeFfn {
                0nat
            } else {
                1nat
            })
            &&& expert_runs(steps, l) == (if interrupts(layers[l]) {
                1nat
            } else {
                0nat
            })
            &&& head_runs(steps) == 1
        }),
{
    lemma_walk_runs(layers, 0, end, tracing, l);
    let walked = walk(layers, 0, end, tracing);
    let close = closing(layers, end, tracing);
    lemma_runs_concat(walked, close, l);
    if layers[end - 1].layer_type == LayerType::MoeFfn {
        lemma_runs_one(PrefillStep::Head, l);
        lemma_runs_concat(capture(tracing, end - 1), seq![PrefillStep::Head], l);
        if tracing {
            lemma_runs_one(PrefillStep::Capture { layer: (end - 1) as usize }, l);
        }
    }
}

// ---- in which order the parts of the model run ----

/// What a chunk passes on its way.
pub enum Part {
    /// The mixer of a layer, with a dense feed-forward part where the layer has one.
    Mixer { layer: int },
    Experts { layer: int },
    /// The hidden state after a layer is recorded.
    Recorded { layer: int },
    Head,
}

/// What a step runs, in order.
pub open spec fn parts_of(s: PrefillStep) -> Seq<Part> {
    match s {
        PrefillStep::Segment { from, to, head } => Seq::new(
            if from <= to {
                (to - from) as nat
            } else {
                0
            },
            |j: int| Part::Mixer { layer: from + j },
        ) + if head {
            seq![Part::Head]
        } else {
            Seq::empty()
        },
        PrefillStep::Moe { layer } => seq![Part::Experts { layer: layer as int }],
        PrefillStep::Capture { layer } => seq![Part::Recorded { layer: layer as int }],
        PrefillStep::Head => seq![Part::Head],
    }
}

/// What a list of steps runs, in order.
pub open spec fn parts_run(steps: Seq<PrefillStep>) -> Seq<Part>
    decreases steps.len(),
{
    if steps.len() == 0 {
        Seq::empty()
    } else {
        parts_run(steps.drop_last()) + parts_of(steps.last())
    }
}

/// Whether a layer's feed-forward part is a set of experts that a chunk passes between
/// compiled segments.
pub open spec fn has_own_experts(l: LayerConfig) -> bool {
    match l.layer_type {
        LayerType::MoeFfn => true,
        LayerType::Attention => l.ffn_type is MoE,
        LayerType::Gdn => l.ffn_type is MoE,
        _ => false,
    }
}

/// The parts of layer `i`: its mixer, its experts, and a record of what they left.
pub open spec fn layer_parts(l: LayerConfig, i: int, tracing: bool) -> Seq<Part> {
    let mixer = if l.layer_type is MoeFfn {
        Seq::empty()
    } else {
        seq![Part::Mixer { layer: i }]
    };
    let experts = if has_own_experts(l) {
        if tracing {
            seq![Part::Experts { layer: i }, Part::Recorded { layer: i }]
        } else {
            seq![Part::Experts { layer: i }]
        }
    } else {
        Seq::empty()
    };
    mixer + experts
}

/// The parts of the layers from `i` on.
pub open spec fn layers_parts(
    layers: Seq<LayerConfig>,
    i: int,
    end: int,
    tracing: bool,
) -> Seq<Part>
    decreases end - i,
{
    if i >= end {
        Seq::empty()
    } else {
        layer_parts(layers[i], i, tracing) + layers_parts(layers, i + 1, end, tracing)
    }
}

/// The parts of the whole model. A standalone expert layer at the end is recorded once
/// more before the head.
pub open spec fn model_parts(layers: Seq<LayerConfig>, end: int, tracing: bool) -> Seq<Part> {
    let again = if tracing && layers[end - 1].layer_type is MoeFfn {
        seq![Part::Recorded { layer: end - 1 }]
    } else {
        Seq::empty()
    };
    layers_parts(layers, 0, end, tracing) + again + seq![Part::Head]
}

proof fn lemma_parts_joined(a: Seq<PrefillStep>, b: Seq<PrefillStep>)
    ensures
        parts_run(a + b) == parts_run(a) + parts_run(b),
    decreases b.len(),
{
    if b.len() == 0 {
        assert(a + b =~= a);
        assert(parts_run(a) + parts_run(b) =~= parts_run(a));
    } else {
        assert((a + b).drop_last() =~= a + b.drop_last());
        lemma_parts_joined(a, b.drop_last());
        assert(parts_run(a + b) =~= parts_run(a) + parts_run(b));
    }
}

proof fn lemma_parts_one(s: PrefillStep)
    ensures
        parts_run(seq![s]) == parts_of(s),
{
    reveal_with_fuel(parts_run, 2);
    assert(seq![s].drop_last() =~= Seq::empty());
    assert(parts_run(seq![s]) =~= parts_of(s));
}

proof fn lemma_span_parts(layers: Seq<LayerConfig>, i: int, to: int, end: int, tracing: bool)
    requires
        0 <= i <= to <= end <= layers.len(),
        forall|l: int| i <= l < to ==> !interrupts(#[trigger] layers[l]),
    ensures
        layers_parts(layers, i, end, tracing) == Seq::new(
            (to - i) as nat,
            |j: int| Part::Mixer { layer: i + j },
        ) + layers_parts(layers, to, end, tracing),
    decreases to - i,
{
    let mixers = Seq::new((to - i) as nat, |j: int| Part::Mixer { layer: i + j });
    if i == to {
        assert(mixers + layers_parts(layers, to, end, tracing) =~= layers_parts(
            layers,
            i,
            end,
            tracing,
        ));
    } else {
        lemma_span_parts(layers, i + 1, to, end, tracing);
        let rest = Seq::new((to - i - 1) as nat, |j: int| Part::Mixer { layer: i + 1 + j });
        assert(!interrupts(layers[i]));
        assert(layer_parts(layers[i], i, tracing) =~= seq![Part::Mixer { layer: i }]);
        assert(mixers =~= seq![Part::Mixer { layer: i }] + rest);
        assert(layers_parts(layers, i, end, tracing) =~= mixers + layers_parts(
            layers,
            to,
            end,
            tracing,
        ));
    }
}

/// What follows the layers where they end with another layer than a standalone expert
/// layer.
spec fn head_due(layers: Seq<LayerConfig>, due: bool, end: int) -> Seq<Part> {
    if due && !(layers[end - 1].layer_type is MoeFfn) {
        seq![Part::Head]
    } else {
        Seq::empty()
    }
}

proof fn lemma_moe_parts(layers: Seq<LayerConfig>, i: int, end: int, tracing: bool)
    requires
        0 <= i < end <= layers.len(),
        end <= usize::MAX,
        layers[i].layer_type == LayerType::MoeFfn,
    ensures
        parts_run(steps_at(layers, i, end, tracing).0) == layer_parts(layers[i], i, tracing)
            + head_due(layers, i + 1 == end, end),
{
    let moe = PrefillStep::Moe { layer: i as usize };
    lemma_parts_one(moe);
    lemma_parts_one(PrefillStep::Capture { layer: i as usize });
    lemma_parts_joined(seq![moe], capture(tracing, i));
    let own = layer_parts(layers[i], i, tracing);
    assert(parts_run(seq![moe] + capture(tracing, i)) =~= own + head_due(layers, i + 1 == end, end));
}

proof fn lemma_mixed_parts(layers: Seq<LayerConfig>, i: int, end: int, tracing: bool)
    requires
        0 <= i < end <= layers.len(),
        end <= usize::MAX,
        layers[i].layer_type != LayerType::MoeFfn,
        mixer_with_experts(layers[i]),
    ensures
        parts_run(steps_at(layers, i, end, tracing).0) == layer_parts(layers[i], i, tracing)
            + head_due(layers, i + 1 == end, end),
{
    let moe = PrefillStep::Moe { layer: i as usize };
    let seg = PrefillStep::Segment { from: i as usize, to: (i + 1) as usize, head: false };
    let captured = capture(tracing, i);
    let head = if i + 1 == end {
        seq![PrefillStep::Head]
    } else {
        Seq::empty()
    };
    lemma_parts_one(moe);
    lemma_parts_one(seg);
    lemma_parts_one(PrefillStep::Head);
    lemma_parts_one(PrefillStep::Capture { layer: i as usize });
    assert(seq![seg, moe] =~= seq![seg] + seq![moe]);
    lemma_parts_joined(seq![seg], seq![moe]);
    lemma_parts_joined(seq![seg, moe], captured);
    lemma_parts_joined(seq![seg, moe] + captured, head);
    assert(parts_of(seg) =~= seq![Part::Mixer { layer: i }]);
    assert(parts_run(seq![seg, moe] + captured + head) =~= layer_parts(layers[i], i, tracing)
        + head_due(layers, i + 1 == end, end));
}

proof fn lemma_parts_append(own: Seq<Part>, rest: Seq<Part>, head: Seq<Part>, last: bool)
    requires
        last ==> rest.len() == 0,
    ensures
        (own + if last { head } else { Seq::empty() }) + (rest + if last {
            Seq::empty()
        } else {
            head
        }) == (own + rest) + head,
{
    assert((own + if last { head } else { Seq::empty() }) + (rest + if last {
        Seq::empty()
    } else {
        head
    }) =~= (own + rest) + head);
}

proof fn lemma_walk_parts(layers: Seq<LayerConfig>, i: int, end: int, tracing: bool)
    requires
        0 <= i <= end <= layers.len(),
        end <= usize::MAX,
        0 < end,
    ensures
        parts_run(walk(layers, i, end, tracing)) == layers_parts(layers, i, end, tracing)
            + head_due(layers, i < end, end),
    decreases end - i,
{
    let all = layers_parts(layers, i, end, tracing);
    if i >= end {
        assert(parts_run(walk(layers, i, end, tracing)) =~= all + head_due(layers, false, end));
    } else if interrupts(layers[i]) {
        let (steps, next) = steps_at(layers, i, end, tracing);
        let rest = walk(layers, next, end, tracing);
        if layers[i].layer_type == LayerType::MoeFfn {
            lemma_moe_parts(layers, i, end, tracing);
        } else {
            lemma_mixed_parts(layers, i, end, tracing);
        }
        lemma_walk_parts(layers, next, end, tracing);
        lemma_parts_joined(steps, rest);
        lemma_parts_append(
            layer_parts(layers[i], i, tracing),
            layers_parts(layers, next, end, tracing),
            head_due(layers, true, end),
            next == end,
        );
    } else {
        lemma_span_walk(layers, i, end, tracing);
        let to = next_interrupt(layers, i + 1, end);
        lemma_next_interrupt(layers, i + 1, end);
        lemma_walk_parts(layers, to, end, tracing);
        let rest = walk(layers, to, end, tracing);
        lemma_parts_joined(steps_at(layers, i, end, tracing).0, rest);
        let mixers = Seq::new((to - i) as nat, |j: int| Part::Mixer { layer: i + j });
        lemma_parts_append(
            mixers,
            layers_parts(layers, to, end, tracing),
            head_due(layers, true, end),
            to == end,
        );
    }
}

proof fn lemma_span_walk(layers: Seq<LayerConfig>, i: int, end: int, tracing: bool)
    requires
        0 <= i < end <= layers.len(),
        end <= usize::MAX,
        !interrupts(layers[i]),
    ensures
        ({
            let to = next_interrupt(layers, i + 1, end);
            let mixers = Seq::new((to - i) as nat, |j: int| Part::Mixer { layer: i + j });
            &&& parts_run(steps_at(layers, i, end, tracing).0) == mixers + head_due(
                layers,
                to == end,
                end,
            )
            &&& layers_parts(layers, i, end, tracing) == mixers + layers_parts(
                layers,
                to,
                end,
                tracing,
            )
        }),
{
    let to = next_interrupt(layers, i + 1, end);
    lemma_next_interrupt(layers, i + 1, end);
    let seg = PrefillStep::Segment { from: i as usize, to: to as usize, head: to == end };
    lemma_parts_one(seg);
    assert forall|l: int| i <= l < to implies !interrupts(#[trigger] layers[l]) by {
        lemma_no_interrupt_between(layers, i + 1, end, l);
    }
    lemma_span_parts(layers, i, to, end, tracing);
    let mixers = Seq::new((to - i) as nat, |j: int| Part::Mixer { layer: i + j });
    assert(!interrupts(layers[to - 1]));
    assert(parts_of(seg) =~= mixers + head_due(layers, to == end, end));
}

/// A chunk passes the model's parts in the model's order: layer after layer, within a
/// layer the mixer before the experts, and the head last. While tracing, the hidden
/// state is recorded behind the experts that left it.
pub proof fn law_parts_in_order(layers: Seq<LayerConfig>, end: int, tracing: bool)
    requires
        0 < end <= layers.len(),
        end <= usize::MAX,
    ensures
        parts_run(chunk_steps(layers, end, tracing)) == model_parts(layers, end, tracing),
{
    let walked = walk(layers, 0, end, tracing);
    let close = closing(layers, end, tracing);
    lemma_walk_parts(layers, 0, end, tracing);
    lemma_parts_joined(walked, close);
    lemma_parts_one(PrefillStep::Head);
    lemma_parts_one(PrefillStep::Capture { layer: (end - 1) as usize });
    lemma_parts_joined(capture(tracing, end - 1), seq![PrefillStep::Head]);
    assert(parts_run(chunk_steps(layers, end, tracing)) =~= model_parts(layers, end, tracing));
}

/// The order in words: of two parts of different layers that of the earlier layer runs
/// first, a layer's mixer runs before its experts, and nothing follows the head.
pub proof fn law_earlier_parts_first(
    layers: Seq<LayerConfig>,
    end: int,
    tracing: bool,
    p: int,
    q: int,
)
    requires
        0 < end <= layers.len(),
        end <= usize::MAX,
        0 <= p < q < parts_run(chunk_steps(layers, end, tracing)).len(),
    ensures
        ({
            let run = parts_run(chunk_steps(layers, end, tracing));
            &&& run[p] !is Head
            &&& run.last() is Head
            &&& run[q] !is Head ==> layer_of(run[p]) <= layer_of(run[q])
            &&& run[q] matches Part::Mixer { layer } ==> layer_of(run[p]) < layer
        }),
{
    law_parts_in_order(layers, end, tracing);
    let run = model_parts(layers, end, tracing);
    lemma_layers_rise(layers, 0, end, tracing);
    let inner = layers_parts(layers, 0, end, tracing);
    if q < inner.len() {
        assert(run[p] == inner[p] && run[q] == inner[q]);
    } else if p < inner.len() {
        assert(run[p] == inner[p]);
    }
}

/// The layer that a part belongs to.
pub open spec fn layer_of(p: Part) -> int {
    match p {
        Part::Mixer { layer } => layer,
        Part::Experts { layer } => layer,
        Part::Recorded { layer } => layer,
        Part::Head => 0,
    }
}

proof fn lemma_layers_rise(layers: Seq<LayerConfig>, i: int, end: int, tracing: bool)
    requires
        0 <= i <= end <= layers.len(),
    ensures
        ({
            let run = layers_parts(layers, i, end, tracing);
            &&& forall|p: int|
                0 <= p < run.len() ==> !((#[trigger] run[p]) is Head) && i <= layer_of(run[p]) < end
            &&& forall|p: int, q: int|
                0 <= p < q < run.len() ==> layer_of(#[trigger] run[p]) <= layer_of(
                    #[trigger] run[q],
                ) && (run[q] is Mixer ==> layer_of(run[p]) < layer_of(run[q]))
        }),
    decreases end - i,
{
    if i < end {
        lemma_layers_rise(layers, i + 1, end, tracing);
        let own = layer_parts(layers[i], i, tracing);
        let rest = layers_parts(layers, i + 1, end, tracing);
        let run = layers_parts(layers, i, end, tracing);
        assert forall|p: int| 0 <= p < run.len() implies !((#[trigger] run[p]) is Head) && i
            <= layer_of(run[p]) < end by {
            if p >= own.len() {
                assert(run[p] == rest[p - own.len()]);
            }
        }
        assert forall|p: int, q: int| 0 <= p < q < run.len() implies layer_of(#[trigger] run[p])
            <= layer_of(#[trigger] run[q]) && (run[q] is Mixer ==> layer_of(run[p]) < layer_of(
            run[q],
        )) by {
            if p >= own.len() {
                assert(run[p] == rest[p - own.len()]);
            }
            if q >= own.len() {
                assert(run[q] == rest[q - own.len()]);
            }
        }
    }
}

} // verus!
