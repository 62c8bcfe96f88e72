//! Tensor names of an expert layer, relative to the layer's prefix.

use vstd::prelude::*;
use vstd::string::*;
use crate::tensors::{Place, Sources};
use crate::text;
use crate::text::{decimal_text, joined};

verus! {

/// How a checkpoint names its experts.
#[derive(Clone, Copy, Debug, PartialEq, Eq, Structural)]
pub enum ExpertScheme {
    Mlp,
    Bare,
    BlockSparse,
}

/// A matrix of an expert.
#[derive(Clone, Copy, Debug, PartialEq, Eq, Structural)]
pub enum ExpertPart {
    Gate,
    Up,
    Down,
}

/// A tensor of an expert layer.
#[derive(Clone, Copy, Debug, PartialEq, Eq, Structural)]
pub enum MoeName {
    MlpGate,
    BareGate,
    BlockSparseGate,
    MlpRouter,
    /// Gate and up matrices of all experts in one tensor.
    FusedGateUp,
    FusedDown,
    BareFusedGateUp,
    BareFusedDown,
    Expert { scheme: ExpertScheme, part: ExpertPart, expert: usize },
    SharedMlp { part: ExpertPart },
    SharedBare { part: ExpertPart },
    SharedExpertGate,
    BareGateBias,
    MlpGateBias,
    LatentIn,
    LatentOut,
}

/// What stands before the expert's number.
pub open spec fn scheme_head(scheme: ExpertScheme) -> Seq<char> {
    match scheme {
        ExpertScheme::Mlp => "mlp.experts."@,
        ExpertScheme::Bare => "experts."@,
        ExpertScheme::BlockSparse => "block_sparse_moe.experts."@,
    }
}

/// A matrix in the usual naming.
pub open spec fn proj_tail(part: ExpertPart) -> Seq<char> {
    match part {
        ExpertPart::Gate => "gate_proj.weight"@,
        ExpertPart::Up => "up_proj.weight"@,
        ExpertPart::Down => "down_proj.weight"@,
    }
}

/// A matrix in the naming of `scheme`.
pub open spec fn scheme_tail(scheme: ExpertScheme, part: ExpertPart) -> Seq<char> {
    match scheme {
        ExpertScheme::BlockSparse => match part {
            ExpertPart::Gate => "w1.weight"@,
            ExpertPart::Up => "w3.weight"@,
            ExpertPart::Down => "w2.weight"@,
        },
        _ => proj_tail(part),
    }
}

fn proj_tail_text(part: ExpertPart) -> (r: &'static str)
    ensures
        r@ == proj_tail(part),
{
    match part {
        ExpertPart::Gate => "gate_proj.weight",
        ExpertPart::Up => "up_proj.weight",
        ExpertPart::Down => "down_proj.weight",
    }
}

impl MoeName {
    /// The name relative to the prefix.
    pub open spec fn tail(self) -> Seq<char> {
        match self {
            MoeName::MlpGate => "mlp.gate.weight"@,
            MoeName::BareGate => "gate.weight"@,
            MoeName::BlockSparseGate => "block_sparse_moe.gate.weight"@,
            MoeName::MlpRouter => "mlp.router.weight"@,
            MoeName::FusedGateUp => "mlp.experts.gate_up_proj"@,
            MoeName::FusedDown => "mlp.experts.down_proj"@,
            MoeName::BareFusedGateUp => "experts.gate_up_proj"@,
            MoeName::BareFusedDown => "experts.down_proj"@,
            MoeName::Expert { scheme, part, expert } => scheme_head(scheme) + text::decimal(
                expert as nat,
            ) + "."@ + scheme_tail(scheme, part),
            MoeName::SharedMlp { part } => "mlp.shared_expert."@ + proj_tail(part),
            MoeName::SharedBare { part } => "shared_experts."@ + proj_tail(part),
            MoeName::SharedExpertGate => "mlp.shared_expert_gate.weight"@,
            MoeName::BareGateBias => "gate.e_score_correction_bias"@,
            MoeName::MlpGateBias => "mlp.gate.e_score_correction_bias"@,
            MoeName::LatentIn => "fc1_latent_proj.weight"@,
            MoeName::LatentOut => "fc2_latent_proj.weight"@,
        }
    }

    /// The full name.
    pub open spec fn full(self, prefix: Seq<char>) -> Seq<char> {
        prefix + self.tail()
    }

    fn tail_text(self) -> (r: String)
        ensures
            r@ == self.tail(),
    {
        match self {
            MoeName::MlpGate => "mlp.gate.weight".to_owned(),
            MoeName::BareGate => "gate.weight".to_owned(),
            MoeName::BlockSparseGate => "block_sparse_moe.gate.weight".to_owned(),
            MoeName::MlpRouter => "mlp.router.weight".to_owned(),
            MoeName::FusedGateUp => "mlp.experts.gate_up_proj".to_owned(),
            MoeName::FusedDown => "mlp.experts.down_proj".to_owned(),
            MoeName::BareFusedGateUp => "experts.gate_up_proj".to_owned(),
            MoeName::BareFusedDown => "experts.down_proj".to_owned(),
            MoeName::Expert { scheme, part, expert } => {
                let head = match scheme {
                    ExpertScheme::Mlp => "mlp.experts.",
                    ExpertScheme::Bare => "experts.",
                    ExpertScheme::BlockSparse => "block_sparse_moe.experts.",
                };
                let tail = match scheme {
                    ExpertScheme::BlockSparse => match part {
                        ExpertPart::Gate => "w1.weight",
                        ExpertPart::Up => "w3.weight",
                        ExpertPart::Down => "w2.weight",
                    },
                    _ => proj_tail_text(part),
                };
                let mut r: String = joined(head, decimal_text(expert).as_str());
                r.append(".");
                r.append(tail);
                r
            },
            MoeName::SharedMlp { part } => joined("mlp.shared_expert.", proj_tail_text(part)),
            MoeName::SharedBare { part } => joined("shared_experts.", proj_tail_text(part)),
            MoeName::SharedExpertGate => "mlp.shared_expert_gate.weight".to_owned(),
            MoeName::BareGateBias => "gate.e_score_correction_bias".to_owned(),
            MoeName::MlpGateBias => "mlp.gate.e_score_correction_bias".to_owned(),
            MoeName::LatentIn => "fc1_latent_proj.weight".to_owned(),
            MoeName::LatentOut => "fc2_latent_proj.weight".to_owned(),
        }
    }

    /// The full name.
    pub fn text(self, prefix: &str) -> (r: String)
        ensures
            r@ == self.full(prefix@),
    {
        joined(prefix, self.tail_text().as_str())
    }
}

/// An expert's matrix.
pub open spec fn expert(scheme: ExpertScheme, part: ExpertPart, expert: int) -> MoeName {
    MoeName::Expert { scheme, part, expert: expert as usize }
}

/// The first of `names` that is found at `place`.
pub open spec fn first_held(
    src: &Sources,
    place: Place,
    prefix: Seq<char>,
    names: Seq<MoeName>,
) -> Option<MoeName>
    decreases names.len(),
{
    if names.len() == 0 {
        None
    } else if src.holds(place, names[0].full(prefix)) {
        Some(names[0])
    } else {
        first_held(src, place, prefix, names.skip(1))
    }
}

/// The first of `names` that is found at `place`.
pub fn first_found(src: &Sources, place: Place, prefix: &str, names: &Vec<MoeName>) -> (r: Option<
    MoeName,
>)
    ensures
        r == first_held(src, place, prefix@, names@),
{
    let mut i: usize = 0;
    assert(names@.skip(0) =~= names@);
    while i < names.len()
        invariant
            i <= names@.len(),
            first_held(src, place, prefix@, names@.skip(i as int)) == first_held(
                src,
                place,
                prefix@,
                names@,
            ),
        decreases names@.len() - i,
    {
        let full = names[i].text(prefix);
        assert(names@.skip(i as int)[0] == names@[i as int]);
        assert(names@.skip(i as int).skip(1) =~= names@.skip(i + 1));
        if src.find(place, full.as_str()) {
            return Some(names[i]);
        }
        i += 1;
    }
    None
}

/// A name that was found is one of those looked for.
pub proof fn law_first_held(src: &Sources, place: Place, prefix: Seq<char>, names: Seq<MoeName>)
    ensures
        first_held(src, place, prefix, names) matches Some(n) ==> names.contains(n) && src.holds(
            place,
            n.full(prefix),
        ),
        first_held(src, place, prefix, names) is None ==> forall|i: int|
            0 <= i < names.len() ==> !src.holds(place, (#[trigger] names[i]).full(prefix)),
    decreases names.len(),
{
    if names.len() > 0 {
        let rest = names.skip(1);
        law_first_held(src, place, prefix, rest);
        if src.holds(place, names[0].full(prefix)) {
            assert(names.contains(names[0]));
        } else {
            match first_held(src, place, prefix, rest) {
                Some(n) => {
                    let k = choose|k: int| 0 <= k < rest.len() && rest[k] == n;
                    assert(names[k + 1] == n);
                },
                None => {
                    assert forall|i: int| 0 <= i < names.len() implies !src.holds(
                        place,
                        (#[trigger] names[i]).full(prefix),
                    ) by {
                        if i > 0 {
                            assert(rest[i - 1] == names[i]);
                        }
                    }
                },
            }
        }
    }
}

/// No name looked for before the one that was found is held.
pub proof fn law_earlier_not_held(
    src: &Sources,
    place: Place,
    prefix: Seq<char>,
    names: Seq<MoeName>,
) -> (k: int)
    requires
        first_held(src, place, prefix, names) is Some,
    ensures
        0 <= k < names.len(),
        first_held(src, place, prefix, names) == Some(names[k]),
        src.holds(place, names[k].full(prefix)),
        forall|j: int| 0 <= j < k ==> !src.holds(place, (#[trigger] names[j]).full(prefix)),
    decreases names.len(),
{
    if src.holds(place, names[0].full(prefix)) {
        0
    } else {
        let rest = names.skip(1);
        let k = law_earlier_not_held(src, place, prefix, rest) + 1;
        assert forall|j: int| 0 <= j < k implies !src.holds(
            place,
            (#[trigger] names[j]).full(prefix),
        ) by {
            if j > 0 {
                assert(rest[j - 1] == names[j]);
            }
        }
        k
    }
}

proof fn lemma_tails_apart(scheme: ExpertScheme, a: ExpertPart, b: ExpertPart)
    requires
        scheme_tail(scheme, a) == scheme_tail(scheme, b),
    ensures
        a == b,
{
    reveal_strlit("gate_proj.weight");
    reveal_strlit("up_proj.weight");
    reveal_strlit("down_proj.weight");
    reveal_strlit("w1.weight");
    reveal_strlit("w2.weight");
    reveal_strlit("w3.weight");
    assert("gate_proj.weight"@[0] == 'g');
    assert("up_proj.weight"@[0] == 'u');
    assert("down_proj.weight"@[0] == 'd');
    assert("w1.weight"@[1] == '1');
    assert("w2.weight"@[1] == '2');
    assert("w3.weight"@[1] == '3');
}

/// A number before a dot ends where that of another such text does.
proof fn lemma_numbers_end(a: nat, b: nat, s: Seq<char>, t: Seq<char>)
    requires
        text::decimal(a) + "."@ + s == text::decimal(b) + "."@ + t,
    ensures
        a == b,
        s == t,
{
    let (x, y) = (text::decimal(a), text::decimal(b));
    let whole = x + "."@ + s;
    text::law_number_round_trip(a, a);
    text::law_number_round_trip(b, b);
    reveal_strlit(".");
    assert(whole[x.len() as int] == '.');
    assert((y + "."@ + t)[y.len() as int] == '.');
    if x.len() < y.len() {
        assert((y + "."@ + t)[x.len() as int] == y[x.len() as int]);
        assert(text::is_digit(y[x.len() as int]));
    } else if y.len() < x.len() {
        assert(whole[y.len() as int] == x[y.len() as int]);
        assert(text::is_digit(x[y.len() as int]));
    }
    let n = x.len() as int;
    assert(x =~= whole.take(n));
    assert(y =~= (y + "."@ + t).take(n));
    assert(s =~= whole.skip(n + 1));
    assert(t =~= (y + "."@ + t).skip(n + 1));
    text::law_numbers_told_apart(a, b);
}

/// No two matrices of a layer's experts share a name: it tells the expert and the part.
pub proof fn law_experts_named_apart(
    prefix: Seq<char>,
    scheme: ExpertScheme,
    a: (ExpertPart, usize),
    b: (ExpertPart, usize),
)
    requires
        expert(scheme, a.0, a.1 as int).full(prefix) == expert(scheme, b.0, b.1 as int).full(prefix),
    ensures
        a == b,
{
    let (x, y) = (expert(scheme, a.0, a.1 as int), expert(scheme, b.0, b.1 as int));
    let head = scheme_head(scheme);
    let (s, t) = (scheme_tail(scheme, a.0), scheme_tail(scheme, b.0));
    let n = prefix.len() as int;
    assert(x.tail() =~= x.full(prefix).skip(n));
    assert(y.tail() =~= y.full(prefix).skip(n));
    let h = head.len() as int;
    assert(text::decimal(a.1 as nat) + "."@ + s =~= x.tail().skip(h));
    assert(text::decimal(b.1 as nat) + "."@ + t =~= y.tail().skip(h));
    lemma_numbers_end(a.1 as nat, b.1 as nat, s, t);
    lemma_tails_apart(scheme, a.0, b.0);
}

} // verus!
