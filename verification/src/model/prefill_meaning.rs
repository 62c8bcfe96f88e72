//! What embedding a chunk of the prompt leaves behind.

use vstd::prelude::*;
use crate::arith;
use crate::config::ModelConfig;
use crate::model::mixer_meaning;
use crate::model::mixer_meaning::{Memory, Mixing};
use crate::model::moe_meaning;
use crate::model::prefill;
use crate::ops::Buf;

verus! {

proof fn lemma_rows_embedded<V>(
    a: Mixing<V>,
    s: Memory<V>,
    config: &ModelConfig,
    tokens: Seq<u32>,
    n: nat,
)
    requires
        tokens.len() * config.hidden_size <= usize::MAX,
        n <= tokens.len(),
    ensures
        ({
            let hs = config.hidden_size as int;
            let list = mixer_meaning::work(prefill::embed_insts(config, tokens));
            let t = mixer_meaning::after(a, s, list, n);
            &&& forall|r: int, i: int|
                0 <= r < n && 0 <= i < hs ==> #[trigger] (t.value)(Buf::PrefillHidden, r * hs + i)
                    == (a.embedding)(tokens[r], i)
            &&& forall|b: Buf, x: int|
                !(b == Buf::PrefillHidden && 0 <= x < n * hs) ==> #[trigger] (t.value)(b, x) == (
                s.value)(b, x)
            &&& t.position == s.position
            &&& t.past == s.past
        }),
    decreases n,
{
    let hs = config.hidden_size as int;
    if n > 0 {
        let p = (n - 1) as nat;
        lemma_rows_embedded(a, s, config, tokens, p);
        arith::lemma_scaled_index(p as int, tokens.len() as int, hs);
        assert(p * hs + hs == n * hs) by (nonlinear_arith)
            requires
                p + 1 == n,
        ;
        assert(0 <= p * hs) by (nonlinear_arith)
            requires
                0 <= hs,
        ;
        let list = mixer_meaning::work(prefill::embed_insts(config, tokens));
        let t = mixer_meaning::after(a, s, list, n);
        assert forall|r: int, i: int| 0 <= r < n && 0 <= i < hs implies #[trigger] (t.value)(
            Buf::PrefillHidden,
            r * hs + i,
        ) == (a.embedding)(tokens[r], i) by {
            moe_meaning::lemma_rows_apart(r, p as int, hs, i);
        }
    }
}

/// Row `r` of the chunk's hidden states becomes the embedding of token `r`; nothing else is
/// written.
pub proof fn law_rows_embedded<V>(
    a: Mixing<V>,
    s: Memory<V>,
    config: &ModelConfig,
    tokens: Seq<u32>,
)
    requires
        tokens.len() * config.hidden_size <= usize::MAX,
    ensures
        ({
            let hs = config.hidden_size as int;
            let t = mixer_meaning::run(
                a,
                s,
                mixer_meaning::work(prefill::embed_insts(config, tokens)),
            );
            &&& forall|r: int, i: int|
                0 <= r < tokens.len() && 0 <= i < hs ==> #[trigger] (t.value)(
                    Buf::PrefillHidden,
                    r * hs + i,
                ) == (a.embedding)(tokens[r], i)
            &&& forall|b: Buf, x: int|
                !(b == Buf::PrefillHidden && 0 <= x < tokens.len() * hs) ==> #[trigger] (t.value)(
                    b,
                    x,
                ) == (s.value)(b, x)
            &&& t.position == s.position
            &&& t.past == s.past
        }),
{
    assert(mixer_meaning::work(prefill::embed_insts(config, tokens)).len() == tokens.len());
    lemma_rows_embedded(a, s, config, tokens, tokens.len());
}

} // verus!
