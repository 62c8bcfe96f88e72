//! What a gated-delta-net layer computes for a token.

use vstd::prelude::*;
use crate::config::ModelConfig;
use crate::model::forward;
use crate::model::mixer_meaning;
use crate::model::mixer_meaning::{Memory, Mixing, Recurrence};
use crate::model::moe_meaning;
use crate::ops;
use crate::ops::{Buf, Loc, Op, Weight};

verus! {

/// Channels of the queries, and of the keys.
pub open spec fn key_width(config: &ModelConfig) -> nat {
    config.linear_num_heads as nat * config.linear_key_head_dim as nat
}

/// Channels of the values.
pub open spec fn value_width(config: &ModelConfig) -> nat {
    config.linear_num_value_heads as nat * config.linear_value_head_dim as nat
}

/// Channels of queries, keys and values.
pub open spec fn channels(config: &ModelConfig) -> nat {
    key_width(config) + key_width(config) + value_width(config)
}

/// What channel `c` remembers: `kernel - 1` inputs, channel after channel.
pub open spec fn memory_of<V>(s: Memory<V>, config: &ModelConfig, gdn: usize, c: int) -> Seq<V> {
    let len = (config.linear_conv_kernel_dim - 1) as nat;
    Seq::new(len, |j: int| (s.value)(Buf::ConvState { gdn }, c * len + j))
}

/// The input of channel `c`: the fused projection gives queries, keys and values in turn.
pub open spec fn channel_in<V>(a: Mixing<V>, layer: usize, n: Seq<V>, c: int) -> V {
    (a.product)(ops::whole(Weight::GdnQkv { layer }), n, c)
}

/// Channel `c` after its convolution.
pub open spec fn channel_out<V>(
    a: Mixing<V>,
    s: Memory<V>,
    config: &ModelConfig,
    layer: usize,
    gdn: usize,
    n: Seq<V>,
    c: int,
) -> V {
    let keys = key_width(config) as int;
    let past = memory_of(s, config, gdn, c);
    let input = channel_in(a, layer, n, c);
    if c < keys {
        (a.convolved)(Weight::GdnConvQ { layer }, c, past, input)
    } else if c < keys + keys {
        (a.convolved)(Weight::GdnConvK { layer }, c - keys, past, input)
    } else {
        (a.convolved)(Weight::GdnConvV { layer }, c - keys - keys, past, input)
    }
}

/// What the recurrent step of a token reads.
pub open spec fn recurrence<V>(
    a: Mixing<V>,
    s: Memory<V>,
    config: &ModelConfig,
    layer: usize,
    gdn: usize,
    n: Seq<V>,
) -> Recurrence<V> {
    let keys = key_width(config);
    let heads = config.linear_num_value_heads;
    let out = |c: int| channel_out(a, s, config, layer, gdn, n, c);
    Recurrence {
        heads,
        key_dim: config.linear_key_head_dim,
        value_dim: config.linear_value_head_dim,
        group: heads / config.linear_num_heads,
        q: Seq::new(keys, |c: int| out(c)),
        k: Seq::new(keys, |c: int| out(keys + c)),
        v: Seq::new(value_width(config), |c: int| out(keys + keys + c)),
        decay: Seq::new(
            heads as nat,
            |h: int|
                (a.decay)(
                    Weight::GdnALog { layer },
                    Weight::GdnDtBias { layer },
                    h,
                    (a.product)(ops::whole(Weight::GdnA { layer }), n, h),
                ),
        ),
        strength: mixer_meaning::times(a, Weight::GdnB { layer }, n, heads as nat),
        state: Seq::new(
            key_width(config) * config.linear_value_head_dim as nat,
            |i: int| (s.value)(Buf::RecurrentState { gdn }, i),
        ),
    }
}

/// What the recurrent step gives, head by head normalised and gated.
pub open spec fn mixed<V>(
    a: Mixing<V>,
    config: &ModelConfig,
    layer: usize,
    n: Seq<V>,
    r: Recurrence<V>,
) -> Seq<V> {
    let dim = config.linear_value_head_dim as nat;
    let out = Seq::new(value_width(config), |i: int| (a.recurrent)(r, i));
    let z = mixer_meaning::times(a, Weight::GdnZ { layer }, n, value_width(config));
    Seq::new(
        value_width(config),
        |i: int|
            (a.gated_norm)(
                mixer_meaning::head(out, i / dim as int, dim),
                mixer_meaning::head(z, i / dim as int, dim),
                Weight::GdnOutputNorm { layer },
                config.rms_norm_eps,
                i % dim as int,
            ),
    )
}

/// The elements that the layer may write.
pub open spec fn writes(config: &ModelConfig, gdn: usize, b: Buf, i: int) -> bool {
    let hs = config.hidden_size as int;
    let heads = config.linear_num_value_heads as int;
    let keys = key_width(config) as int;
    let values = value_width(config) as int;
    0 <= i < match b {
        Buf::Normed => hs,
        Buf::Qkv => channels(config) as int,
        Buf::AProj => heads,
        Buf::BProj => heads,
        Buf::GateGdn => heads,
        Buf::ZProj => values,
        Buf::QGdn => keys,
        Buf::KGdn => keys,
        Buf::VGdn => values,
        Buf::RecurrentOut => values,
        Buf::NormedGated => values,
        Buf::OutProj => hs,
        Buf::Residual => hs,
        Buf::Hidden => hs,
        Buf::ConvState { gdn: g } => if g == gdn {
            channels(config) * (config.linear_conv_kernel_dim - 1)
        } else {
            0
        },
        Buf::RecurrentState { gdn: g } => if g == gdn {
            (key_width(config) * config.linear_value_head_dim as nat) as int
        } else {
            0
        },
        _ => 0,
    }
}

/// What channel `d` of a convolution state remembers.
spec fn remembered_at<V>(s: Memory<V>, gdn: usize, len: nat, d: int) -> Seq<V> {
    Seq::new(len, |j: int| (s.value)(Buf::ConvState { gdn }, d * len + j))
}

/// One convolution over the channels from `from` on.
spec fn conv(gdn: usize, w: Weight, out: Buf, from: nat, count: nat, kernel: usize) -> Op {
    Op::CausalConv1d {
        state: Loc {
            buf: Buf::ConvState { gdn },
            offset: (from * (kernel - 1) as nat) as usize,
        },
        input: Loc { buf: Buf::Qkv, offset: from as usize },
        weight: w,
        out: ops::start(out),
        channels: count as usize,
        kernel,
    }
}

proof fn lemma_conv<V>(
    a: Mixing<V>,
    s: Memory<V>,
    gdn: usize,
    w: Weight,
    out: Buf,
    from: nat,
    count: nat,
    kernel: usize,
)
    requires
        kernel > 0,
        from + count <= usize::MAX,
        (from + count) * (kernel - 1) <= usize::MAX,
        out == Buf::QGdn || out == Buf::KGdn || out == Buf::VGdn,
    ensures
        ({
            let len = (kernel - 1) as nat;
            let t = mixer_meaning::step(a, s, conv(gdn, w, out, from, count, kernel));
            &&& forall|c: int|
                0 <= c < count ==> #[trigger] (t.value)(out, c) == (a.convolved)(
                    w,
                    c,
                    remembered_at(s, gdn, len, from + c),
                    (s.value)(Buf::Qkv, from + c),
                )
            &&& forall|d: int, j: int|
                from <= d < from + count && 0 <= j < len ==> #[trigger] (t.value)(
                    Buf::ConvState { gdn },
                    d * len + j,
                ) == (a.remembered)(
                    remembered_at(s, gdn, len, d),
                    (s.value)(Buf::Qkv, d),
                    j,
                )
            &&& forall|b: Buf, x: int|
                !(b == out && 0 <= x < count) && !(b == (Buf::ConvState { gdn }) && from * len <= x
                    < (from + count) * len) ==> #[trigger] (t.value)(b, x) == (s.value)(b, x)
            &&& t.position == s.position
            &&& t.past == s.past
        }),
{
    let len = (kernel - 1) as nat;
    let op = conv(gdn, w, out, from, count, kernel);
    let t = mixer_meaning::step(a, s, op);
    let state = op->CausalConv1d_state;
    assert(from * len <= (from + count) * len && (from + count) * len == from * len + count * len)
        by (nonlinear_arith);
    assert forall|c: int| 0 <= c < count implies mixer_meaning::taps(s, state, c, len)
        == #[trigger] remembered_at(s, gdn, len, from + c) by {
        assert((from + c) * len == from * len + c * len) by (nonlinear_arith);
        assert(mixer_meaning::taps(s, state, c, len) =~= remembered_at(s, gdn, len, from + c));
    }
    assert forall|c: int| 0 <= c < count implies #[trigger] (t.value)(out, c) == (a.convolved)(
        w,
        c,
        remembered_at(s, gdn, len, from + c),
        (s.value)(Buf::Qkv, from + c),
    ) by {}
    assert forall|d: int, j: int| from <= d < from + count && 0 <= j < len implies #[trigger] (
    t.value)(Buf::ConvState { gdn }, d * len + j) == (a.remembered)(
        remembered_at(s, gdn, len, d),
        (s.value)(Buf::Qkv, d),
        j,
    ) by {
        let c = d - from;
        moe_meaning::lemma_cell_place(c, len as int, j);
        assert(d * len + j == from * len + (c * len + j)) by (nonlinear_arith)
            requires
                c == d - from,
        ;
        assert(c * len + j < count * len) by (nonlinear_arith)
            requires
                0 <= c < count,
                0 <= j < len,
        ;
        assert(remembered_at(s, gdn, len, from + c) == mixer_meaning::taps(s, state, c, len));
    }
}

/// The projections that the layer starts with.
spec fn projections(config: &ModelConfig, layer: usize) -> Seq<Op> {
    let hs = config.hidden_size;
    let heads = config.linear_num_value_heads;
    let line = |out: Buf, w: Weight, len: nat|
        Op::Linear {
            out: ops::start(out),
            matrix: ops::whole(w),
            input: ops::start(Buf::Normed),
            out_dim: len as usize,
            in_dim: hs,
        };
    seq![
        Op::RmsNorm {
            out: ops::start(Buf::Normed),
            input: ops::start(Buf::Hidden),
            weight: Weight::InputNorm { layer },
            dim: hs,
            eps: config.rms_norm_eps,
            one_plus_w: config.rms_norm_one_plus_w,
        },
        line(Buf::Qkv, Weight::GdnQkv { layer }, channels(config)),
        line(Buf::AProj, Weight::GdnA { layer }, heads as nat),
        line(Buf::BProj, Weight::GdnB { layer }, heads as nat),
        line(Buf::ZProj, Weight::GdnZ { layer }, value_width(config)),
    ]
}

proof fn lemma_projections<V>(
    a: Mixing<V>,
    s: Memory<V>,
    config: &ModelConfig,
    layer: usize,
    gdn: usize,
)
    requires
        channels(config) <= usize::MAX,
    ensures
        ({
            let n = mixer_meaning::normed(a, config, layer, mixer_meaning::hidden(s, config));
            let t = mixer_meaning::run(a, s, projections(config, layer));
            let row = |w: Weight, i: int| (a.product)(ops::whole(w), n, i);
            &&& forall|i: int|
                0 <= i < channels(config) ==> #[trigger] (t.value)(Buf::Qkv, i) == channel_in(
                    a,
                    layer,
                    n,
                    i,
                )
            &&& forall|i: int|
                0 <= i < config.linear_num_value_heads ==> #[trigger] (t.value)(Buf::AProj, i)
                    == row(Weight::GdnA { layer }, i)
            &&& forall|i: int|
                0 <= i < config.linear_num_value_heads ==> #[trigger] (t.value)(Buf::BProj, i)
                    == row(Weight::GdnB { layer }, i)
            &&& forall|i: int|
                0 <= i < value_width(config) ==> #[trigger] (t.value)(Buf::ZProj, i) == row(
                    Weight::GdnZ { layer },
                    i,
                )
            &&& forall|b: Buf, i: int|
                !writes(config, gdn, b, i) || b is ConvState || b is RecurrentState || b
                    == Buf::Hidden ==> #[trigger] (t.value)(b, i) == (s.value)(b, i)
            &&& t.position == s.position
            &&& t.past == s.past
        }),
{
    let l = projections(config, layer);
    let n = mixer_meaning::normed(a, config, layer, mixer_meaning::hidden(s, config));
    let hs = config.hidden_size as nat;
    let from = ops::start(Buf::Normed);
    reveal_with_fuel(mixer_meaning::after, 6);
    let s1 = mixer_meaning::step(a, s, l[0]);
    let s2 = mixer_meaning::step(a, s1, l[1]);
    let s3 = mixer_meaning::step(a, s2, l[2]);
    let s4 = mixer_meaning::step(a, s3, l[3]);
    let s5 = mixer_meaning::step(a, s4, l[4]);
    assert(mixer_meaning::run(a, s, l) == s5);
    assert(mixer_meaning::vector(s, ops::start(Buf::Hidden), hs) =~= mixer_meaning::hidden(s, config));
    assert(mixer_meaning::vector(s1, from, hs) =~= n);
    assert(mixer_meaning::vector(s2, from, hs) =~= n);
    assert(mixer_meaning::vector(s3, from, hs) =~= n);
    assert(mixer_meaning::vector(s4, from, hs) =~= n);
}

/// The three convolutions.
spec fn convolutions(config: &ModelConfig, layer: usize, gdn: usize) -> Seq<Op> {
    let keys = key_width(config);
    let kernel = config.linear_conv_kernel_dim;
    seq![
        conv(gdn, Weight::GdnConvQ { layer }, Buf::QGdn, 0, keys, kernel),
        conv(gdn, Weight::GdnConvK { layer }, Buf::KGdn, keys, keys, kernel),
        conv(gdn, Weight::GdnConvV { layer }, Buf::VGdn, keys + keys, value_width(config), kernel),
    ]
}

proof fn lemma_convolutions<V>(
    a: Mixing<V>,
    s0: Memory<V>,
    s: Memory<V>,
    config: &ModelConfig,
    layer: usize,
    gdn: usize,
    n: Seq<V>,
)
    requires
        config.linear_conv_kernel_dim > 0,
        channels(config) <= usize::MAX,
        channels(config) * (config.linear_conv_kernel_dim - 1) <= usize::MAX,
        forall|i: int|
            0 <= i < channels(config) ==> #[trigger] (s.value)(Buf::Qkv, i) == channel_in(
                a,
                layer,
                n,
                i,
            ),
        forall|i: int| #[trigger]
            (s.value)(Buf::ConvState { gdn }, i) == (s0.value)(Buf::ConvState { gdn }, i),
    ensures
        ({
            let len = (config.linear_conv_kernel_dim - 1) as nat;
            let keys = key_width(config);
            let out = |c: int| channel_out(a, s0, config, layer, gdn, n, c);
            let t = mixer_meaning::run(a, s, convolutions(config, layer, gdn));
            &&& forall|c: int| 0 <= c < keys ==> #[trigger] (t.value)(Buf::QGdn, c) == out(c)
            &&& forall|c: int| 0 <= c < keys ==> #[trigger] (t.value)(Buf::KGdn, c) == out(keys + c)
            &&& forall|c: int|
                0 <= c < value_width(config) ==> #[trigger] (t.value)(Buf::VGdn, c) == out(
                    keys + keys + c,
                )
            &&& forall|c: int, j: int|
                0 <= c < channels(config) && 0 <= j < len ==> #[trigger] (t.value)(
                    Buf::ConvState { gdn },
                    c * len + j,
                ) == (a.remembered)(
                    memory_of(s0, config, gdn, c),
                    channel_in(a, layer, n, c),
                    j,
                )
            &&& forall|b: Buf, i: int|
                !writes(config, gdn, b, i) || !(b == Buf::QGdn || b == Buf::KGdn || b == Buf::VGdn
                    || b is ConvState) ==> #[trigger] (t.value)(b, i) == (s.value)(b, i)
            &&& t.position == s.position
            &&& t.past == s.past
        }),
{
    let len = (config.linear_conv_kernel_dim - 1) as nat;
    let kernel = config.linear_conv_kernel_dim;
    let keys = key_width(config);
    let values = value_width(config);
    let l = convolutions(config, layer, gdn);
    let total = channels(config);
    assert(keys * len <= (keys + keys) * len <= total * len) by (nonlinear_arith)
        requires
            total == keys + keys + values,
            keys >= 0,
            values >= 0,
            len >= 0,
    ;
    assert(0 * len == 0);
    assert((0 + keys) * len == keys * len);
    reveal_with_fuel(mixer_meaning::after, 4);
    let s1 = mixer_meaning::step(a, s, l[0]);
    let s2 = mixer_meaning::step(a, s1, l[1]);
    let s3 = mixer_meaning::step(a, s2, l[2]);
    assert(mixer_meaning::run(a, s, l) == s3);
    lemma_conv(a, s, gdn, Weight::GdnConvQ { layer }, Buf::QGdn, 0, keys, kernel);
    lemma_conv(a, s1, gdn, Weight::GdnConvK { layer }, Buf::KGdn, keys, keys, kernel);
    lemma_conv(a, s2, gdn, Weight::GdnConvV { layer }, Buf::VGdn, keys + keys, values, kernel);
    assert forall|d: int| 0 <= d < keys implies #[trigger] remembered_at(s, gdn, len, d)
        == memory_of(s0, config, gdn, d) by {
        assert(remembered_at(s, gdn, len, d) =~= memory_of(s0, config, gdn, d));
    }
    assert forall|d: int| keys <= d < keys + keys implies #[trigger] remembered_at(s1, gdn, len, d)
        == memory_of(s0, config, gdn, d) by {
        assert(keys * len <= d * len) by (nonlinear_arith)
            requires
                keys <= d,
                len >= 0,
        ;
        assert(remembered_at(s1, gdn, len, d) =~= memory_of(s0, config, gdn, d));
    }
    assert forall|d: int| keys + keys <= d < total implies #[trigger] remembered_at(
        s2,
        gdn,
        len,
        d,
    ) == memory_of(s0, config, gdn, d) by {
        assert((keys + keys) * len <= d * len) by (nonlinear_arith)
            requires
                keys + keys <= d,
                len >= 0,
        ;
        assert(remembered_at(s2, gdn, len, d) =~= memory_of(s0, config, gdn, d));
    }
    assert forall|c: int, j: int| 0 <= c < total && 0 <= j < len implies #[trigger] (s3.value)(
        Buf::ConvState { gdn },
        c * len + j,
    ) == (a.remembered)(memory_of(s0, config, gdn, c), channel_in(a, layer, n, c), j) by {
        let at = c * len + j;
        if c < keys {
            assert(at < keys * len && 0 <= at) by (nonlinear_arith)
                requires
                    at == c * len + j,
                    0 <= c < keys,
                    0 <= j < len,
            ;
            assert((s3.value)(Buf::ConvState { gdn }, at) == (s1.value)(
                Buf::ConvState { gdn },
                at,
            ));
            assert(remembered_at(s, gdn, len, c) == memory_of(s0, config, gdn, c));
        } else if c < keys + keys {
            assert(at < (keys + keys) * len) by (nonlinear_arith)
                requires
                    at == c * len + j,
                    0 <= c < keys + keys,
                    0 <= j < len,
            ;
            assert((s3.value)(Buf::ConvState { gdn }, at) == (s2.value)(
                Buf::ConvState { gdn },
                at,
            ));
            assert(remembered_at(s1, gdn, len, c) == memory_of(s0, config, gdn, c));
        } else {
            assert(remembered_at(s2, gdn, len, c) == memory_of(s0, config, gdn, c));
        }
    }
    assert(0 <= keys * len) by (nonlinear_arith)
        requires
            keys >= 0,
            len >= 0,
    ;
    assert forall|c: int| 0 <= c < keys implies #[trigger] (s3.value)(Buf::QGdn, c) == channel_out(
        a,
        s0,
        config,
        layer,
        gdn,
        n,
        c,
    ) by {
        assert(remembered_at(s, gdn, len, 0 + c) == memory_of(s0, config, gdn, c));
        assert((s1.value)(Buf::QGdn, c) == (s3.value)(Buf::QGdn, c));
    }
    assert forall|c: int| 0 <= c < keys implies #[trigger] (s3.value)(Buf::KGdn, c) == channel_out(
        a,
        s0,
        config,
        layer,
        gdn,
        n,
        keys + c,
    ) by {
        assert(remembered_at(s1, gdn, len, keys + c) == memory_of(s0, config, gdn, keys + c));
        assert((s2.value)(Buf::KGdn, c) == (s3.value)(Buf::KGdn, c));
    }
    assert forall|c: int| 0 <= c < values implies #[trigger] (s3.value)(Buf::VGdn, c)
        == channel_out(a, s0, config, layer, gdn, n, keys + keys + c) by {
        let d = keys + keys + c;
        assert(remembered_at(s2, gdn, len, d) == memory_of(s0, config, gdn, d));
    }
}

/// What follows the convolutions.
spec fn closing(config: &ModelConfig, layer: usize, gdn: usize) -> Seq<Op> {
    let hs = config.hidden_size;
    let heads = config.linear_num_value_heads;
    seq![
        Op::GdnGate { layer, heads },
        Op::GdnRecurrent {
            gdn,
            heads,
            key_dim: config.linear_key_head_dim,
            value_dim: config.linear_value_head_dim,
            group: heads / config.linear_num_heads,
            states: config.linear_num_heads,
        },
        Op::RmsNormGated {
            layer,
            heads,
            dim: config.linear_value_head_dim,
            eps: config.rms_norm_eps,
        },
        Op::Linear {
            out: ops::start(Buf::OutProj),
            matrix: ops::whole(Weight::GdnOut { layer }),
            input: ops::start(Buf::NormedGated),
            out_dim: hs,
            in_dim: value_width(config) as usize,
        },
        Op::Copy { dst: ops::start(Buf::Residual), src: ops::start(Buf::Hidden), len: hs },
        Op::ResidualAdd {
            out: ops::start(Buf::Hidden),
            a: ops::start(Buf::OutProj),
            b: ops::start(Buf::Residual),
            len: hs,
        },
    ]
}

proof fn lemma_closing<V>(
    a: Mixing<V>,
    s0: Memory<V>,
    s: Memory<V>,
    config: &ModelConfig,
    layer: usize,
    gdn: usize,
    n: Seq<V>,
)
    requires
        value_width(config) <= usize::MAX,
        config.linear_num_heads > 0,
        ({
            let r = recurrence(a, s0, config, layer, gdn, n);
            let heads = config.linear_num_value_heads;
            &&& forall|i: int|
                0 <= i < key_width(config) ==> #[trigger] (s.value)(Buf::QGdn, i) == r.q[i]
            &&& forall|i: int|
                0 <= i < key_width(config) ==> #[trigger] (s.value)(Buf::KGdn, i) == r.k[i]
            &&& forall|i: int|
                0 <= i < value_width(config) ==> #[trigger] (s.value)(Buf::VGdn, i) == r.v[i]
            &&& forall|i: int|
                0 <= i < heads ==> #[trigger] (s.value)(Buf::AProj, i) == (a.product)(
                    ops::whole(Weight::GdnA { layer }),
                    n,
                    i,
                )
            &&& forall|i: int|
                0 <= i < heads ==> #[trigger] (s.value)(Buf::BProj, i) == r.strength[i]
            &&& forall|i: int|
                0 <= i < value_width(config) ==> #[trigger] (s.value)(Buf::ZProj, i) == (a.product)(
                    ops::whole(Weight::GdnZ { layer }),
                    n,
                    i,
                )
            &&& forall|i: int| #[trigger]
                (s.value)(Buf::RecurrentState { gdn }, i) == (s0.value)(
                    Buf::RecurrentState { gdn },
                    i,
                )
        }),
    ensures
        ({
            let r = recurrence(a, s0, config, layer, gdn, n);
            let t = mixer_meaning::run(a, s, closing(config, layer, gdn));
            &&& forall|i: int|
                0 <= i < config.hidden_size ==> #[trigger] (t.value)(Buf::Hidden, i) == (a.sum)(
                    (a.product)(
                        ops::whole(Weight::GdnOut { layer }),
                        mixed(a, config, layer, n, r),
                        i,
                    ),
                    (s.value)(Buf::Hidden, i),
                )
            &&& forall|i: int|
                0 <= i < r.state.len() ==> #[trigger] (t.value)(Buf::RecurrentState { gdn }, i)
                    == (a.new_state)(r, i)
            &&& forall|b: Buf, i: int|
                !writes(config, gdn, b, i) || b is ConvState ==> #[trigger] (t.value)(b, i) == (
                s.value)(b, i)
            &&& t.position == s.position
            &&& t.past == s.past
        }),
{
    let l = closing(config, layer, gdn);
    let r = recurrence(a, s0, config, layer, gdn, n);
    let heads = config.linear_num_value_heads as nat;
    let dim = config.linear_value_head_dim as nat;
    let keys = key_width(config);
    let values = value_width(config);
    reveal_with_fuel(mixer_meaning::after, 7);
    let s1 = mixer_meaning::step(a, s, l[0]);
    let s2 = mixer_meaning::step(a, s1, l[1]);
    let s3 = mixer_meaning::step(a, s2, l[2]);
    let s4 = mixer_meaning::step(a, s3, l[3]);
    let s5 = mixer_meaning::step(a, s4, l[4]);
    let s6 = mixer_meaning::step(a, s5, l[5]);
    assert(mixer_meaning::run(a, s, l) == s6);
    assert(mixer_meaning::vector(s1, ops::start(Buf::QGdn), keys) =~= r.q);
    assert(mixer_meaning::vector(s1, ops::start(Buf::KGdn), keys) =~= r.k);
    assert(mixer_meaning::vector(s1, ops::start(Buf::VGdn), values) =~= r.v);
    assert(mixer_meaning::vector(s1, ops::start(Buf::GateGdn), heads) =~= r.decay);
    assert(mixer_meaning::vector(s1, ops::start(Buf::BProj), heads) =~= r.strength);
    assert(mixer_meaning::vector(
        s1,
        ops::start(Buf::RecurrentState { gdn }),
        config.linear_num_heads as nat * config.linear_key_head_dim as nat * dim,
    ) =~= r.state);
    let out = Seq::new(values, |i: int| (a.recurrent)(r, i));
    let z = mixer_meaning::times(a, Weight::GdnZ { layer }, n, values);
    assert(mixer_meaning::vector(s2, ops::start(Buf::RecurrentOut), values) =~= out);
    assert(mixer_meaning::vector(s2, ops::start(Buf::ZProj), values) =~= z);
    let m = mixed(a, config, layer, n, r);
    assert(mixer_meaning::vector(s3, ops::start(Buf::NormedGated), values) =~= m);
}

/// The layer adds to the token's hidden state what it mixes from it and from its own
/// states. Queries, keys and values are consecutive channels of one projection; every
/// channel is convolved with what that very channel remembers, and remembers its own new
/// input. The recurrent step updates the layer's recurrent state. Nothing else but the
/// layer's scratch is written.
pub proof fn law_gdn_layer<V>(
    a: Mixing<V>,
    s: Memory<V>,
    config: &ModelConfig,
    layer: usize,
    gdn: usize,
)
    requires
        forward::gdn_fits(config),
    ensures
        ({
            let x = mixer_meaning::hidden(s, config);
            let n = mixer_meaning::normed(a, config, layer, x);
            let r = recurrence(a, s, config, layer, gdn, n);
            let len = config.linear_conv_kernel_dim - 1;
            let t = mixer_meaning::run(a, s, forward::gdn_ops(config, layer, gdn));
            &&& forall|i: int|
                0 <= i < config.hidden_size ==> #[trigger] (t.value)(Buf::Hidden, i) == (a.sum)(
                    (a.product)(
                        ops::whole(Weight::GdnOut { layer }),
                        mixed(a, config, layer, n, r),
                        i,
                    ),
                    x[i],
                )
            &&& forall|c: int, j: int|
                0 <= c < channels(config) && 0 <= j < len ==> #[trigger] (t.value)(
                    Buf::ConvState { gdn },
                    c * len + j,
                ) == (a.remembered)(
                    memory_of(s, config, gdn, c),
                    channel_in(a, layer, n, c),
                    j,
                )
            &&& forall|i: int|
                0 <= i < r.state.len() ==> #[trigger] (t.value)(Buf::RecurrentState { gdn }, i)
                    == (a.new_state)(r, i)
            &&& forall|b: Buf, i: int|
                !writes(config, gdn, b, i) ==> #[trigger] (t.value)(b, i) == (s.value)(b, i)
            &&& t.position == s.position
            &&& t.past == s.past
        }),
{
    let n = mixer_meaning::normed(a, config, layer, mixer_meaning::hidden(s, config));
    let r = recurrence(a, s, config, layer, gdn, n);
    let p = projections(config, layer);
    let c = convolutions(config, layer, gdn);
    let e = closing(config, layer, gdn);
    let keys = key_width(config);
    assert(keys * 2 == keys + keys);
    assert(forward::gdn_ops(config, layer, gdn) =~= p + c + e) by {
        assert(0 * forward::taps(config) == 0);
    }
    mixer_meaning::lemma_run_joined(a, s, p + c, e);
    mixer_meaning::lemma_run_joined(a, s, p, c);
    lemma_projections(a, s, config, layer, gdn);
    let s1 = mixer_meaning::run(a, s, p);
    lemma_convolutions(a, s, s1, config, layer, gdn, n);
    let s2 = mixer_meaning::run(a, s1, c);
    lemma_closing(a, s, s2, config, layer, gdn, n);
}

} // verus!
