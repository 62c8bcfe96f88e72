//! What a traced decode step computes, whatever the mixers and experts do.

use vstd::prelude::*;
use crate::config;
use crate::config::{FfnType, LayerConfig, LayerType, ModelConfig};
use crate::model::mixer_meaning;
use crate::model::mixer_meaning::{Memory, Mixing};
use crate::model::moe_meaning::Norm;
use crate::model::trace;
use crate::model::trace::{Checkpoint, TraceStep};
use crate::ops;
use crate::ops::{Buf, Op, Weight};

verus! {

/// What runs outside the traced step's own kernels. Attention is told how many tokens the
/// step has appended.
#[verifier::reject_recursive_types(V)]
pub struct Parts<V> {
    pub attention: spec_fn(usize, usize, nat, Memory<V>) -> Memory<V>,
    pub gdn: spec_fn(usize, usize, Memory<V>) -> Memory<V>,
    pub mamba2: spec_fn(usize, usize, Memory<V>) -> Memory<V>,
    pub experts: spec_fn(usize, Memory<V>) -> Memory<V>,
    pub fused: spec_fn(usize, Memory<V>) -> Memory<V>,
}

/// A step on its way: the contents, what was recorded with the contents at the time, the
/// tokens appended, and the positions counted as done.
#[verifier::reject_recursive_types(V)]
pub struct Progress<V> {
    pub memory: Memory<V>,
    pub log: Seq<(Checkpoint, Memory<V>)>,
    pub appended: nat,
    pub done: Seq<u32>,
}

/// One step.
pub open spec fn advance<V>(
    a: Mixing<V>,
    p: Parts<V>,
    g: Progress<V>,
    step: TraceStep,
) -> Progress<V> {
    match step {
        TraceStep::AppendToken => Progress { appended: g.appended + 1, ..g },
        TraceStep::Op(op) => Progress { memory: mixer_meaning::step(a, g.memory, op), ..g },
        TraceStep::Attention { layer, attn } => Progress {
            memory: (p.attention)(layer, attn, g.appended, g.memory),
            ..g
        },
        TraceStep::Gdn { layer, gdn } => Progress { memory: (p.gdn)(layer, gdn, g.memory), ..g },
        TraceStep::Mamba2 { layer, index } => Progress {
            memory: (p.mamba2)(layer, index, g.memory),
            ..g
        },
        TraceStep::Moe { layer } => Progress { memory: (p.experts)(layer, g.memory), ..g },
        TraceStep::FusedFfn { layer } => Progress { memory: (p.fused)(layer, g.memory), ..g },
        TraceStep::Record(c) => Progress { log: g.log.push((c, g.memory)), ..g },
        TraceStep::StepDone { position } => Progress { done: g.done.push(position), ..g },
    }
}

/// A list of steps, one after the other.
pub open spec fn traced<V>(
    a: Mixing<V>,
    p: Parts<V>,
    g: Progress<V>,
    list: Seq<TraceStep>,
) -> Progress<V>
    decreases list.len(),
{
    if list.len() == 0 {
        g
    } else {
        advance(a, p, traced(a, p, g, list.drop_last()), list.last())
    }
}

proof fn lemma_joined<V>(
    a: Mixing<V>,
    p: Parts<V>,
    g: Progress<V>,
    x: Seq<TraceStep>,
    y: Seq<TraceStep>,
)
    ensures
        traced(a, p, g, x + y) == traced(a, p, traced(a, p, g, x), y),
    decreases y.len(),
{
    if y.len() == 0 {
        assert(x + y =~= x);
    } else {
        lemma_joined(a, p, g, x, y.drop_last());
        assert((x + y).drop_last() =~= x + y.drop_last());
    }
}

proof fn lemma_one<V>(a: Mixing<V>, p: Parts<V>, g: Progress<V>, step: TraceStep)
    ensures
        traced(a, p, g, seq![step]) == advance(a, p, g, step),
{
    assert(seq![step].drop_last() =~= Seq::empty());
    reveal_with_fuel(traced, 2);
}

proof fn lemma_none<V>(a: Mixing<V>, p: Parts<V>, g: Progress<V>)
    ensures
        traced(a, p, g, Seq::empty()) == g,
{
}

/// Kernels change the contents alone.
proof fn lemma_kernels<V>(a: Mixing<V>, p: Parts<V>, g: Progress<V>, list: Seq<Op>)
    ensures
        traced(a, p, g, list.map_values(|o: Op| TraceStep::Op(o))) == (Progress {
            memory: mixer_meaning::run(a, g.memory, list),
            ..g
        }),
    decreases list.len(),
{
    let steps = list.map_values(|o: Op| TraceStep::Op(o));
    if list.len() > 0 {
        let front = list.drop_last();
        lemma_kernels(a, p, g, front);
        assert(steps.drop_last() =~= front.map_values(|o: Op| TraceStep::Op(o)));
        assert(list =~= front + seq![list.last()]);
        mixer_meaning::lemma_run_joined(a, g.memory, front, seq![list.last()]);
        mixer_meaning::lemma_run_one(
            a,
            mixer_meaning::run(a, g.memory, front),
            list.last(),
        );
    }
}

// ---- the parts of a step ----

/// How many layers before layer `i` have its mixer.
pub open spec fn earlier_alike(layers: Seq<LayerConfig>, i: int) -> nat {
    layers.take(i).filter(|l: LayerConfig| l.layer_type == layers[i].layer_type).len()
}

/// The contents after the mixer of layer `i`.
pub open spec fn mixed<V>(
    p: Parts<V>,
    config: &ModelConfig,
    i: int,
    appended: nat,
    s: Memory<V>,
) -> Memory<V> {
    let index = earlier_alike(config.layers@, i) as usize;
    match config.layers@[i].layer_type {
        LayerType::Attention => (p.attention)(i as usize, index, appended, s),
        LayerType::Gdn => (p.gdn)(i as usize, index, s),
        LayerType::Mamba2 => (p.mamba2)(i as usize, index, s),
        _ => s,
    }
}

/// What the dense part normalises.
pub open spec fn post_normed<V>(
    a: Mixing<V>,
    config: &ModelConfig,
    layer: usize,
    x: Seq<V>,
) -> Seq<V> {
    let how = Norm {
        weight: Weight::PostNorm { layer },
        eps: config.rms_norm_eps,
        one_plus_w: config.rms_norm_one_plus_w,
    };
    Seq::new(config.hidden_size as nat, |i: int| (a.norm)(x, how, i))
}

/// The inner activations of the dense part: what is projected up, under the activation of
/// what is projected to gates.
pub open spec fn inner<V>(a: Mixing<V>, config: &ModelConfig, layer: usize, n: Seq<V>) -> Seq<V> {
    Seq::new(
        config.intermediate_size as nat,
        |i: int|
            (a.silu_mul)(
                (a.product)(ops::whole(Weight::FfnGate { layer }), n, i),
                (a.product)(ops::whole(Weight::FfnUp { layer }), n, i),
            ),
    )
}

/// The dense part adds to the hidden state what it makes of it, and writes nothing else
/// but its scratch.
pub open spec fn dense_done<V>(
    a: Mixing<V>,
    config: &ModelConfig,
    layer: usize,
    s: Memory<V>,
    t: Memory<V>,
) -> bool {
    let hs = config.hidden_size as int;
    let x = mixer_meaning::hidden(s, config);
    let act = inner(a, config, layer, post_normed(a, config, layer, x));
    &&& forall|i: int|
        0 <= i < hs ==> #[trigger] (t.value)(Buf::Hidden, i) == (a.sum)(
            (a.product)(ops::whole(Weight::FfnDown { layer }), act, i),
            x[i],
        )
    &&& forall|b: Buf, i: int|
        !({
            ||| (b == Buf::Hidden || b == Buf::Normed || b == Buf::Residual || b == Buf::FfnDown)
                && 0 <= i < hs
            ||| (b == Buf::FfnGate || b == Buf::FfnUp || b == Buf::FfnAct) && 0 <= i
                < config.intermediate_size
        }) ==> #[trigger] (t.value)(b, i) == (s.value)(b, i)
    &&& t.position == s.position
    &&& t.past == s.past
}

/// The dense part, kernel by kernel.
pub proof fn law_dense_part<V>(a: Mixing<V>, s: Memory<V>, config: &ModelConfig, layer: usize)
    ensures
        dense_done(
            a,
            config,
            layer,
            s,
            mixer_meaning::run(a, s, trace::dense_ops(config, layer)),
        ),
{
    let l = trace::dense_ops(config, layer);
    let hs = config.hidden_size as nat;
    let x = mixer_meaning::hidden(s, config);
    let n = post_normed(a, config, layer, x);
    reveal_with_fuel(mixer_meaning::after, 8);
    let s1 = mixer_meaning::step(a, s, l[0]);
    let s2 = mixer_meaning::step(a, s1, l[1]);
    let s3 = mixer_meaning::step(a, s2, l[2]);
    let s4 = mixer_meaning::step(a, s3, l[3]);
    let s5 = mixer_meaning::step(a, s4, l[4]);
    let s6 = mixer_meaning::step(a, s5, l[5]);
    let s7 = mixer_meaning::step(a, s6, l[6]);
    assert(mixer_meaning::run(a, s, l) == s7);
    assert(mixer_meaning::vector(s1, ops::start(Buf::Hidden), hs) =~= x);
    assert(mixer_meaning::vector(s2, ops::start(Buf::Normed), hs) =~= n);
    assert(mixer_meaning::vector(s3, ops::start(Buf::Normed), hs) =~= n);
    assert(mixer_meaning::vector(
        s5,
        ops::start(Buf::FfnAct),
        config.intermediate_size as nat,
    ) =~= inner(a, config, layer, n));
}

/// The feed-forward part of layer `i` turns `s` into `t`.
pub open spec fn ffn_done<V>(
    a: Mixing<V>,
    p: Parts<V>,
    config: &ModelConfig,
    i: int,
    all_bf16: bool,
    s: Memory<V>,
    t: Memory<V>,
) -> bool {
    match config.layers@[i].ffn_type {
        FfnType::MoE { .. } => t == (p.experts)(i as usize, s),
        FfnType::Absent => t == s,
        FfnType::Dense => if all_bf16 {
            t == (p.fused)(i as usize, s)
        } else {
            dense_done(a, config, i as usize, s, t)
        },
    }
}

/// The contents that the first layer finds: the token's embedding, at its position.
pub open spec fn embedded<V>(
    a: Mixing<V>,
    config: &ModelConfig,
    token: u32,
    position: u32,
    s: Memory<V>,
) -> Memory<V> {
    Memory {
        value: |b: Buf, i: int|
            if b == Buf::Hidden && 0 <= i < config.hidden_size {
                (a.embedding)(token, i)
            } else {
                (s.value)(b, i)
            },
        position,
        past: s.past,
    }
}

/// After the layers: the final norm under the head gives the logits; nothing else but the
/// norm's scratch is written.
pub open spec fn head_done<V>(
    a: Mixing<V>,
    config: &ModelConfig,
    s: Memory<V>,
    t: Memory<V>,
) -> bool {
    let hs = config.hidden_size as int;
    let how = Norm {
        weight: Weight::FinalNorm,
        eps: config.rms_norm_eps,
        one_plus_w: config.rms_norm_one_plus_w,
    };
    let x = mixer_meaning::hidden(s, config);
    let n = Seq::new(hs as nat, |i: int| (a.norm)(x, how, i));
    let w = if config.tie_word_embeddings {
        Weight::Embed
    } else {
        Weight::LmHead
    };
    &&& forall|i: int|
        0 <= i < config.vocab_size ==> #[trigger] (t.value)(Buf::Logits, i) == (a.product)(
            ops::whole(w),
            n,
            i,
        )
    &&& forall|i: int| 0 <= i < hs ==> #[trigger] (t.value)(Buf::Normed, i) == n[i]
    &&& forall|b: Buf, i: int|
        !(b == Buf::Normed && 0 <= i < hs || b == Buf::Logits && 0 <= i < config.vocab_size)
            ==> #[trigger] (t.value)(b, i) == (s.value)(b, i)
    &&& t.position == s.position
    &&& t.past == s.past
}

/// What is recorded of the first `n` layers.
pub open spec fn layers_log<V>(
    p: Parts<V>,
    config: &ModelConfig,
    u: Seq<Memory<V>>,
    appended: nat,
    n: nat,
) -> Seq<(Checkpoint, Memory<V>)> {
    Seq::new(
        2 * n,
        |k: int|
            if k % 2 == 0 {
                (
                    Checkpoint::PostMixer { layer: (k / 2) as usize },
                    mixed(p, config, k / 2, appended, u[k / 2]),
                )
            } else {
                (Checkpoint::PostFfn { layer: (k / 2) as usize }, u[k / 2 + 1])
            },
    )
}

proof fn lemma_alike(layers: Seq<LayerConfig>, t: LayerType)
    ensures
        config::count_layers(layers, t) == layers.filter(
            |l: LayerConfig| l.layer_type == t,
        ).len(),
    decreases layers.len(),
{
    reveal(Seq::filter);
    if layers.len() > 0 {
        lemma_alike(layers.drop_last(), t);
    }
}

proof fn lemma_record<V>(
    a: Mixing<V>,
    p: Parts<V>,
    g: Progress<V>,
    tracing: bool,
    c: Checkpoint,
)
    ensures
        traced(a, p, g, trace::record(tracing, c)) == (Progress {
            log: if tracing {
                g.log.push((c, g.memory))
            } else {
                g.log
            },
            ..g
        }),
{
    if tracing {
        lemma_one(a, p, g, TraceStep::Record(c));
    } else {
        lemma_none(a, p, g);
    }
}

/// One layer: its mixer, a checkpoint, its feed-forward part, a checkpoint.
proof fn lemma_layer<V>(
    a: Mixing<V>,
    p: Parts<V>,
    g: Progress<V>,
    config: &ModelConfig,
    i: int,
    all_bf16: bool,
    tracing: bool,
) -> (t: Memory<V>)
    requires
        0 <= i < config.layers@.len(),
    ensures
        ({
            let m = mixed(p, config, i, g.appended, g.memory);
            &&& ffn_done(a, p, config, i, all_bf16, m, t)
            &&& traced(a, p, g, trace::layer_steps(config, i, all_bf16, tracing)) == (Progress {
                memory: t,
                log: if tracing {
                    g.log.push((Checkpoint::PostMixer { layer: i as usize }, m)).push(
                        (Checkpoint::PostFfn { layer: i as usize }, t),
                    )
                } else {
                    g.log
                },
                ..g
            })
        }),
{
    let kind = config.layers@[i].layer_type;
    lemma_alike(config.layers@.take(i), kind);
    let l1 = trace::mixer_step(config.layers@, i);
    let l2 = trace::record(tracing, Checkpoint::PostMixer { layer: i as usize });
    let l3 = trace::ffn_steps(config, i, all_bf16);
    let l4 = trace::record(tracing, Checkpoint::PostFfn { layer: i as usize });
    lemma_joined(a, p, g, l1 + l2 + l3, l4);
    lemma_joined(a, p, g, l1 + l2, l3);
    lemma_joined(a, p, g, l1, l2);
    let m = mixed(p, config, i, g.appended, g.memory);
    let g1 = traced(a, p, g, l1);
    assert(g1 == (Progress { memory: m, ..g })) by {
        if l1.len() > 0 {
            assert(l1 =~= seq![l1[0]]);
            lemma_one(a, p, g, l1[0]);
        } else {
            lemma_none(a, p, g);
        }
    }
    lemma_record(a, p, g1, tracing, Checkpoint::PostMixer { layer: i as usize });
    let g2 = traced(a, p, g1, l2);
    let g3 = traced(a, p, g2, l3);
    let t = g3.memory;
    assert(ffn_done(a, p, config, i, all_bf16, m, t) && g3 == (Progress { memory: t, ..g2 })) by {
        match config.layers@[i].ffn_type {
            FfnType::MoE { .. } => lemma_one(a, p, g2, l3[0]),
            FfnType::Absent => lemma_none(a, p, g2),
            FfnType::Dense => if all_bf16 {
                lemma_one(a, p, g2, l3[0]);
            } else {
                lemma_kernels(a, p, g2, trace::dense_ops(config, i as usize));
                law_dense_part(a, g2.memory, config, i as usize);
            },
        }
    }
    lemma_record(a, p, g3, tracing, Checkpoint::PostFfn { layer: i as usize });
    t
}

proof fn lemma_log_grows<V>(
    p: Parts<V>,
    config: &ModelConfig,
    u: Seq<Memory<V>>,
    appended: nat,
    t: Memory<V>,
    log: Seq<(Checkpoint, Memory<V>)>,
)
    requires
        u.len() > 0,
    ensures
        ({
            let q = u.len() - 1;
            (log + layers_log(p, config, u, appended, q as nat)).push(
                (
                    Checkpoint::PostMixer { layer: q as usize },
                    mixed(p, config, q, appended, u[q]),
                ),
            ).push((Checkpoint::PostFfn { layer: q as usize }, t)) == log + layers_log(
                p,
                config,
                u.push(t),
                appended,
                (q + 1) as nat,
            )
        }),
{
    let q = u.len() - 1;
    let m = mixed(p, config, q, appended, u[q]);
    let short = layers_log(p, config, u, appended, q as nat);
    let long = layers_log(p, config, u.push(t), appended, (q + 1) as nat);
    assert forall|k: int| 0 <= k < short.len() implies #[trigger] short[k] == long[k] by {
        assert(u[k / 2] == u.push(t)[k / 2]);
        assert(u[k / 2 + 1] == u.push(t)[k / 2 + 1]);
    }
    assert(long[2 * q] == (Checkpoint::PostMixer { layer: q as usize }, m));
    assert(long[2 * q + 1] == (Checkpoint::PostFfn { layer: q as usize }, t));
    assert((log + short).push((Checkpoint::PostMixer { layer: q as usize }, m)).push(
        (Checkpoint::PostFfn { layer: q as usize }, t),
    ) =~= log + long);
}

proof fn lemma_layers<V>(
    a: Mixing<V>,
    p: Parts<V>,
    g: Progress<V>,
    config: &ModelConfig,
    all_bf16: Seq<bool>,
    tracing: bool,
    n: nat,
) -> (u: Seq<Memory<V>>)
    requires
        n <= config.layers@.len(),
    ensures
        u.len() == n + 1,
        u[0] == g.memory,
        forall|i: int|
            0 <= i < n ==> ffn_done(
                a,
                p,
                config,
                i,
                all_bf16[i],
                mixed(p, config, i, g.appended, #[trigger] u[i]),
                u[i + 1],
            ),
        traced(a, p, g, trace::layers_steps(config, all_bf16, tracing, n)) == (Progress {
            memory: u[n as int],
            log: if tracing {
                g.log + layers_log(p, config, u, g.appended, n)
            } else {
                g.log
            },
            ..g
        }),
    decreases n,
{
    if n == 0 {
        let u = seq![g.memory];
        lemma_none(a, p, g);
        assert(g.log + layers_log(p, config, u, g.appended, n) =~= g.log);
        u
    } else {
        let q = (n - 1) as nat;
        let before = lemma_layers(a, p, g, config, all_bf16, tracing, q);
        let front = trace::layers_steps(config, all_bf16, tracing, q);
        let h = traced(a, p, g, front);
        let last = trace::layer_steps(config, q as int, all_bf16[q as int], tracing);
        lemma_joined(a, p, g, front, last);
        let t = lemma_layer(a, p, h, config, q as int, all_bf16[q as int], tracing);
        let u = before.push(t);
        lemma_log_grows(p, config, before, g.appended, t, g.log);
        assert forall|i: int| 0 <= i < n implies ffn_done(
            a,
            p,
            config,
            i,
            all_bf16[i],
            mixed(p, config, i, g.appended, #[trigger] u[i]),
            u[i + 1],
        ) by {
            if i < q {
                assert(u[i] == before[i] && u[i + 1] == before[i + 1]);
            }
        }
        u
    }
}

proof fn lemma_start<V>(
    a: Mixing<V>,
    p: Parts<V>,
    g: Progress<V>,
    config: &ModelConfig,
    token: u32,
    position: u32,
    tracing: bool,
)
    ensures
        ({
            let m = embedded(a, config, token, position, g.memory);
            let t = traced(a, p, g, trace::head_steps(config, token, position, tracing));
            &&& t.memory == m
            &&& t.log == if tracing {
                g.log.push((Checkpoint::Embed, m))
            } else {
                g.log
            }
            &&& t.appended == g.appended + if config.attn_layers() > 0 {
                1nat
            } else {
                0nat
            }
            &&& t.done == g.done
        }),
{
    let append = if config.attn_layers() > 0 {
        seq![TraceStep::AppendToken]
    } else {
        Seq::empty()
    };
    let list = seq![
        Op::SetPosition { position },
        Op::Embedding { out: ops::start(Buf::Hidden), token, dim: config.hidden_size },
    ];
    let steps = list.map_values(|o: Op| TraceStep::Op(o));
    let last = trace::record(tracing, Checkpoint::Embed);
    assert(trace::head_steps(config, token, position, tracing) =~= append + steps + last);
    lemma_joined(a, p, g, append + steps, last);
    lemma_joined(a, p, g, append, steps);
    let g1 = traced(a, p, g, append);
    if config.attn_layers() > 0 {
        lemma_one(a, p, g, TraceStep::AppendToken);
    } else {
        lemma_none(a, p, g);
    }
    lemma_kernels(a, p, g1, list);
    mixer_meaning::lemma_run_two(a, g1.memory, list[0], list[1]);
    let g2 = traced(a, p, g1, steps);
    let m = embedded(a, config, token, position, g.memory);
    assert(g2.memory.value =~= m.value);
    assert(g2.memory == m);
    lemma_record(a, p, g2, tracing, Checkpoint::Embed);
}

proof fn lemma_end<V>(
    a: Mixing<V>,
    p: Parts<V>,
    g: Progress<V>,
    config: &ModelConfig,
    tracing: bool,
)
    ensures
        ({
            let t = traced(a, p, g, trace::tail_steps(config, tracing));
            &&& head_done(a, config, g.memory, t.memory)
            &&& t.log == if tracing {
                g.log + seq![
                    (Checkpoint::FinalHidden, t.memory),
                    (Checkpoint::FinalNorm, t.memory),
                    (Checkpoint::TopLogits, t.memory),
                ]
            } else {
                g.log
            }
            &&& t.appended == g.appended
            &&& t.done == g.done
        }),
{
    let all = trace::tail_steps(config, tracing);
    let list = seq![all[0]->Op_0, all[1]->Op_0, Op::Sync];
    let steps = list.map_values(|o: Op| TraceStep::Op(o));
    let closing = if tracing {
        seq![
            TraceStep::Record(Checkpoint::FinalHidden),
            TraceStep::Record(Checkpoint::FinalNorm),
            TraceStep::Record(Checkpoint::TopLogits),
        ]
    } else {
        Seq::empty()
    };
    assert(all =~= steps + closing);
    lemma_joined(a, p, g, steps, closing);
    lemma_kernels(a, p, g, list);
    let s = g.memory;
    reveal_with_fuel(mixer_meaning::after, 4);
    let s1 = mixer_meaning::step(a, s, list[0]);
    let s2 = mixer_meaning::step(a, s1, list[1]);
    assert(mixer_meaning::run(a, s, list) == s2);
    let hs = config.hidden_size as nat;
    let how = Norm {
        weight: Weight::FinalNorm,
        eps: config.rms_norm_eps,
        one_plus_w: config.rms_norm_one_plus_w,
    };
    let x = mixer_meaning::hidden(s, config);
    assert(mixer_meaning::vector(s, ops::start(Buf::Hidden), hs) =~= x);
    assert(mixer_meaning::vector(s1, ops::start(Buf::Normed), hs) =~= Seq::new(
        hs,
        |i: int| (a.norm)(x, how, i),
    ));
    let g1 = traced(a, p, g, steps);
    if tracing {
        assert(closing =~= seq![closing[0]] + seq![closing[1]] + seq![closing[2]]);
        lemma_joined(a, p, g1, seq![closing[0]] + seq![closing[1]], seq![closing[2]]);
        lemma_joined(a, p, g1, seq![closing[0]], seq![closing[1]]);
        lemma_one(a, p, g1, closing[0]);
        let g2 = traced(a, p, g1, seq![closing[0]]);
        lemma_one(a, p, g2, closing[1]);
        let g3 = traced(a, p, g2, seq![closing[1]]);
        lemma_one(a, p, g3, closing[2]);
    } else {
        lemma_none(a, p, g1);
    }
}

/// A traced decode step embeds the token, runs layer after layer, and turns the last
/// hidden state into logits. Of each layer the mixer runs first, with the number of earlier
/// mixers of its kind, and then the feed-forward part. Attention sees the token appended
/// once. Every checkpoint holds the contents at its point; recording changes nothing. The
/// step ends counted at its position. `u` holds the contents between the layers.
pub proof fn law_traced_step<V>(
    a: Mixing<V>,
    p: Parts<V>,
    s: Memory<V>,
    config: &ModelConfig,
    all_bf16: Seq<bool>,
    token: u32,
    position: u32,
    tracing: bool,
) -> (u: Seq<Memory<V>>)
    requires
        config.num_layers <= config.layers@.len(),
    ensures
        ({
            let n = config.num_layers as int;
            let begin = Progress { memory: s, log: Seq::empty(), appended: 0, done: Seq::empty() };
            let t = traced(
                a,
                p,
                begin,
                trace::trace_steps(config, all_bf16, token, position, tracing),
            );
            let attends = exists|i: int|
                0 <= i < config.layers@.len() && #[trigger] config.layers@[i].layer_type
                    == LayerType::Attention;
            let appended = if attends {
                1nat
            } else {
                0nat
            };
            &&& u.len() == n + 1
            &&& u[0] == embedded(a, config, token, position, s)
            &&& forall|i: int|
                0 <= i < n ==> ffn_done(
                    a,
                    p,
                    config,
                    i,
                    all_bf16[i],
                    mixed(p, config, i, appended, #[trigger] u[i]),
                    u[i + 1],
                )
            &&& head_done(a, config, u[n], t.memory)
            &&& t.appended == appended
            &&& t.done == seq![position]
            &&& !tracing ==> t.log.len() == 0
            &&& tracing ==> t.log == seq![(Checkpoint::Embed, u[0])] + layers_log(
                p,
                config,
                u,
                appended,
                n as nat,
            ) + seq![
                (Checkpoint::FinalHidden, t.memory),
                (Checkpoint::FinalNorm, t.memory),
                (Checkpoint::TopLogits, t.memory),
            ]
        }),
{
    let n = config.num_layers as nat;
    let begin = Progress { memory: s, log: Seq::empty(), appended: 0, done: Seq::empty() };
    let l1 = trace::head_steps(config, token, position, tracing);
    let l2 = trace::layers_steps(config, all_bf16, tracing, n);
    let l3 = trace::tail_steps(config, tracing);
    let l4 = seq![TraceStep::StepDone { position }];
    lemma_joined(a, p, begin, l1 + l2 + l3, l4);
    lemma_joined(a, p, begin, l1 + l2, l3);
    lemma_joined(a, p, begin, l1, l2);
    lemma_start(a, p, begin, config, token, position, tracing);
    let g1 = traced(a, p, begin, l1);
    let u = lemma_layers(a, p, g1, config, all_bf16, tracing, n);
    let g2 = traced(a, p, g1, l2);
    lemma_end(a, p, g2, config, tracing);
    let g3 = traced(a, p, g2, l3);
    lemma_one(a, p, g3, l4[0]);
    lemma_attends(config.layers@);
    assert(Seq::<u32>::empty().push(position) =~= seq![position]);
    assert(Seq::empty().push((Checkpoint::Embed, u[0])) =~= seq![(Checkpoint::Embed, u[0])]);
    u
}

/// There is an attention layer just when their count is positive.
proof fn lemma_attends(layers: Seq<LayerConfig>)
    ensures
        config::count_layers(layers, LayerType::Attention) > 0 <==> exists|i: int|
            0 <= i < layers.len() && #[trigger] layers[i].layer_type == LayerType::Attention,
    decreases layers.len(),
{
    if layers.len() > 0 {
        let front = layers.drop_last();
        lemma_attends(front);
        if config::count_layers(front, LayerType::Attention) > 0 {
            let i = choose|i: int|
                0 <= i < front.len() && #[trigger] front[i].layer_type == LayerType::Attention;
            assert(layers[i] == front[i]);
        } else if layers.last().layer_type == LayerType::Attention {
            assert(layers[layers.len() - 1].layer_type == LayerType::Attention);
        } else {
            assert forall|i: int| 0 <= i < layers.len() implies #[trigger] layers[i].layer_type
                != LayerType::Attention by {
                if i < front.len() {
                    assert(front[i] == layers[i]);
                }
            }
        }
    }
}

} // verus!
