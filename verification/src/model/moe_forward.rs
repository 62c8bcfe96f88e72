//! Plans of the mixture-of-experts feed-forward pass: one token on one GPU, a
//! prefill batch over worker mailboxes, and a prefill batch on one GPU.

use vstd::prelude::*;
use crate::arith;
use crate::config::{GateType, LayerType};
use crate::ops;
use crate::ops::{all_of, at, Buf, Op, WLoc, Weight, WeightFormat, ONE_F32};

verus! {

/// What the forward pass reads of an expert layer.
#[derive(Clone, Copy, Debug, PartialEq, Eq, Structural)]
pub struct MoeLayer {
    pub layer: usize,
    /// Mixer the feed-forward part belongs to.
    pub mixer: LayerType,
    pub hidden_size: usize,
    pub num_experts: usize,
    pub expert_intermediate_size: usize,
    /// Input (and output) width of an expert.
    pub gate_up_in_dim: usize,
    pub has_gate_proj: bool,
    pub has_fc1: bool,
    pub has_fc2: bool,
    pub has_shared: bool,
    pub has_shared_gate: bool,
    pub has_score_bias: bool,
    pub gate_up_format: WeightFormat,
    pub down_format: WeightFormat,
    pub num_active: usize,
    pub gate_type: GateType,
    /// Shared expert width from the model description; 0 means the expert width.
    pub shared_intermediate_size: usize,
    /// Expert width from the model description.
    pub config_intermediate_size: usize,
    pub eps: u32,
    pub one_plus_w: bool,
}

/// Router mode and scaling factor of a gate.
pub open spec fn gate_params(g: GateType) -> (u32, u32) {
    match g {
        GateType::Softmax => (0, ONE_F32),
        GateType::NormTopK { routed_scaling_factor } => (1, routed_scaling_factor),
        GateType::Sigmoid { routed_scaling_factor } => (2, routed_scaling_factor),
    }
}

/// Router mode and scaling factor of a gate.
pub fn gate_mode(g: GateType) -> (r: (u32, u32))
    ensures
        r == gate_params(g),
{
    match g {
        GateType::Softmax => (0, ONE_F32),
        GateType::NormTopK { routed_scaling_factor } => (1, routed_scaling_factor),
        GateType::Sigmoid { routed_scaling_factor } => (2, routed_scaling_factor),
    }
}

impl MoeLayer {
    /// Rows one expert takes in the fused gate/up matrix.
    pub open spec fn gate_up_rows(&self) -> nat {
        if self.has_gate_proj {
            2 * self.expert_intermediate_size as nat
        } else {
            self.expert_intermediate_size as nat
        }
    }

    pub open spec fn gate_up_row_bytes(&self) -> nat {
        self.gate_up_format.row_bytes(self.gate_up_in_dim as nat)
    }

    pub open spec fn down_row_bytes(&self) -> nat {
        self.down_format.row_bytes(self.expert_intermediate_size as nat)
    }

    /// The layer has a norm to apply, and its expert tensors are addressable.
    pub open spec fn valid(&self) -> bool {
        &&& (self.mixer == LayerType::Attention || self.mixer == LayerType::Gdn || self.mixer
            == LayerType::MoeFfn)
        &&& self.gate_up_row_bytes() <= usize::MAX
        &&& self.down_row_bytes() <= usize::MAX
        &&& self.num_experts * self.gate_up_rows() <= usize::MAX
        &&& self.num_experts * self.gate_up_rows() * self.gate_up_row_bytes() <= usize::MAX
        &&& self.num_experts * self.gate_up_in_dim <= usize::MAX
        &&& self.num_experts * self.gate_up_in_dim * self.down_row_bytes() <= usize::MAX
    }

    /// A standalone expert layer normalises its input, any other its mixer's output.
    pub open spec fn norm(&self) -> Weight {
        if self.mixer == LayerType::MoeFfn {
            Weight::InputNorm { layer: self.layer }
        } else {
            Weight::PostNorm { layer: self.layer }
        }
    }

    pub open spec fn bias(&self) -> Option<Weight> {
        if self.has_score_bias {
            Some(Weight::ScoreBias { layer: self.layer })
        } else {
            None
        }
    }

    /// Width of the shared expert.
    pub open spec fn shared_width(&self) -> usize {
        if self.shared_intermediate_size > 0 {
            self.shared_intermediate_size
        } else {
            self.config_intermediate_size
        }
    }

    /// Byte offset of `expert`'s first row (that of its gate projection, where it has one).
    pub open spec fn gate_up_offset(&self, expert: nat) -> nat {
        expert * self.gate_up_rows() * self.gate_up_row_bytes()
    }

    /// Byte offset of `expert`'s up projection.
    pub open spec fn up_offset(&self, expert: nat) -> nat {
        if self.has_gate_proj {
            (expert * self.gate_up_rows() + self.expert_intermediate_size as nat)
                * self.gate_up_row_bytes()
        } else {
            self.gate_up_offset(expert)
        }
    }

    /// Byte offset of `expert`'s down projection.
    pub open spec fn down_offset(&self, expert: nat) -> nat {
        expert * self.gate_up_in_dim as nat * self.down_row_bytes()
    }

    pub(crate) fn norm_weight(&self) -> (r: Weight)
        ensures
            r == self.norm(),
    {
        if self.mixer == LayerType::MoeFfn {
            Weight::InputNorm { layer: self.layer }
        } else {
            Weight::PostNorm { layer: self.layer }
        }
    }

    pub(crate) fn score_bias(&self) -> (r: Option<Weight>)
        ensures
            r == self.bias(),
    {
        if self.has_score_bias {
            Some(Weight::ScoreBias { layer: self.layer })
        } else {
            None
        }
    }

    pub(crate) fn shared_size(&self) -> (r: usize)
        ensures
            r == self.shared_width(),
    {
        if self.shared_intermediate_size > 0 {
            self.shared_intermediate_size
        } else {
            self.config_intermediate_size
        }
    }

    /// Byte offsets of gate, up and down projections of one expert.
    pub(crate) fn expert_offsets(&self, expert: usize) -> (r: (usize, usize, usize))
        requires
            self.valid(),
            expert < self.num_experts,
        ensures
            r.0 == self.gate_up_offset(expert as nat),
            r.1 == self.up_offset(expert as nat),
            r.2 == self.down_offset(expert as nat),
            r.2 <= usize::MAX,
    {
        let eis: usize = self.expert_intermediate_size;
        let latent: usize = self.gate_up_in_dim;
        proof {
            let ne = self.num_experts as int;
            let rows = self.gate_up_rows() as int;
            let rb = self.gate_up_row_bytes() as int;
            arith::lemma_scaled_index(expert as int, ne, rows);
            arith::lemma_mul_mono(expert * rows, ne * rows, rb);
            if self.has_gate_proj {
                arith::lemma_mul_mono(expert * rows + eis, ne * rows, rb);
            }
            arith::lemma_scaled_index(expert as int, ne, latent as int);
            arith::lemma_mul_mono(expert * latent, ne * latent, self.down_row_bytes() as int);
        }
        let down: usize = self.down_format.row_byte_offset_dim(expert * latent, eis);
        if self.has_gate_proj {
            let first: usize = expert_row(expert, eis);
            (
                self.gate_up_format.row_byte_offset_dim(first, latent),
                self.gate_up_format.row_byte_offset_dim(first + eis, latent),
                down,
            )
        } else {
            let up: usize = self.gate_up_format.row_byte_offset_dim(expert * eis, latent);
            (up, up, down)
        }
    }
}

/// First row of an expert whose gate and up projections are stacked.
fn expert_row(expert: usize, eis: usize) -> (r: usize)
    requires
        expert * (2 * eis) <= usize::MAX,
    ensures
        r == expert * (2 * eis),
{
    if expert == 0 || eis == 0 {
        proof {
            assert(expert * (2 * eis) == 0) by (nonlinear_arith)
                requires
                    expert == 0 || eis == 0,
            ;
        }
        0
    } else {
        proof {
            assert(2 * eis <= expert * (2 * eis)) by (nonlinear_arith)
                requires
                    expert >= 1,
                    eis >= 0,
            ;
        }
        expert * (2 * eis)
    }
}

/// The experts' rows tile the expert tensors: expert 0 starts with the tensor, and the
/// end of an expert's rows is the start of the next one's. Within an expert come
/// first its gate rows, where it has any, and then its up rows.
pub proof fn law_experts_tile_tensors(m: &MoeLayer, e: nat)
    ensures
        ({
            let up_bytes = m.expert_intermediate_size * m.gate_up_format.row_bytes(
                m.gate_up_in_dim as nat,
            );
            let down_bytes = m.gate_up_in_dim * m.down_format.row_bytes(
                m.expert_intermediate_size as nat,
            );
            &&& m.gate_up_offset(0) == 0
            &&& m.down_offset(0) == 0
            &&& m.up_offset(e) == if m.has_gate_proj {
                m.gate_up_offset(e) + up_bytes
            } else {
                m.gate_up_offset(e) as int
            }
            &&& m.up_offset(e) + up_bytes == m.gate_up_offset(e + 1)
            &&& m.down_offset(e) + down_bytes == m.down_offset(e + 1)
        }),
{
    let inter = m.expert_intermediate_size as int;
    let row = m.gate_up_row_bytes() as int;
    let down = m.down_row_bytes() as int;
    let (latent, i) = (m.gate_up_in_dim as int, e as int);
    assert(0 * (2 * inter) * row == 0 && 0 * inter * row == 0 && 0 * latent * down == 0)
        by (nonlinear_arith);
    assert((i * (2 * inter) + inter) * row == i * (2 * inter) * row + inter * row)
        by (nonlinear_arith);
    assert((i * (2 * inter) + inter) * row + inter * row == (i + 1) * (2 * inter) * row)
        by (nonlinear_arith);
    assert(i * inter * row + inter * row == (i + 1) * inter * row) by (nonlinear_arith);
    assert(i * latent * down + latent * down == (i + 1) * latent * down) by (nonlinear_arith);
}

/// Different experts read disjoint rows: what an earlier expert reads of a tensor ends
/// before what a later one reads begins, and all of it lies inside the tensor.
pub proof fn law_experts_disjoint(m: &MoeLayer, e: nat, f: nat)
    requires
        e < f,
    ensures
        ({
            let up_bytes = m.expert_intermediate_size * m.gate_up_format.row_bytes(
                m.gate_up_in_dim as nat,
            );
            let down_bytes = m.gate_up_in_dim * m.down_format.row_bytes(
                m.expert_intermediate_size as nat,
            );
            &&& m.gate_up_offset(e) <= m.up_offset(e)
            &&& m.up_offset(e) + up_bytes <= m.gate_up_offset(f)
            &&& m.down_offset(e) + down_bytes <= m.down_offset(f)
            &&& f < m.num_experts ==> {
                let rows = if m.has_gate_proj {
                    2 * m.expert_intermediate_size
                } else {
                    m.expert_intermediate_size as int
                };
                &&& m.up_offset(f) + up_bytes <= m.num_experts * (rows
                    * m.gate_up_format.row_bytes(m.gate_up_in_dim as nat))
                &&& m.down_offset(f) + down_bytes <= m.num_experts * down_bytes
            }
        }),
{
    law_experts_tile_tensors(m, e);
    law_experts_tile_tensors(m, f);
    let inter = m.expert_intermediate_size as int;
    let rows = m.gate_up_rows() as int;
    let row = m.gate_up_row_bytes() as int;
    let down = m.down_row_bytes() as int;
    let latent = m.gate_up_in_dim as int;
    let (i, j, n) = (e as int, f as int, m.num_experts as int);
    assert((i + 1) * rows * row <= j * rows * row) by (nonlinear_arith)
        requires
            i + 1 <= j,
            rows >= 0,
            row >= 0,
    ;
    assert((i + 1) * latent * down <= j * latent * down) by (nonlinear_arith)
        requires
            i + 1 <= j,
            latent >= 0,
            down >= 0,
    ;
    assert(inter * row >= 0 && latent * down >= 0) by (nonlinear_arith)
        requires
            inter >= 0,
            row >= 0,
            latent >= 0,
            down >= 0,
    ;
    if j < n {
        assert((j + 1) * rows * row <= n * (rows * row)) by (nonlinear_arith)
            requires
                j + 1 <= n,
                rows >= 0,
                row >= 0,
        ;
        assert((j + 1) * latent * down <= n * (latent * down)) by (nonlinear_arith)
            requires
                j + 1 <= n,
                latent >= 0,
                down >= 0,
        ;
    }
}

// ---- one token ----

/// Normalises the hidden state, saves the residual and routes the token.
pub open spec fn route_ops(m: &MoeLayer) -> Seq<Op> {
    let (mode, scaling) = gate_params(m.gate_type);
    seq![
        Op::RmsNorm {
            out: ops::start(Buf::Normed),
            input: ops::start(Buf::Hidden),
            weight: m.norm(),
            dim: m.hidden_size,
            eps: m.eps,
            one_plus_w: m.one_plus_w,
        },
        Op::Copy {
            dst: ops::start(Buf::Residual),
            src: ops::start(Buf::Hidden),
            len: m.hidden_size,
        },
        Op::Linear {
            out: ops::start(Buf::MoeScores),
            matrix: ops::whole(Weight::Router { layer: m.layer }),
            input: ops::start(Buf::Normed),
            out_dim: m.num_experts,
            in_dim: m.hidden_size,
        },
        Op::MoeGate {
            scores: ops::start(Buf::MoeScores),
            ids: ops::start(Buf::MoeExpertIds),
            weights: ops::start(Buf::MoeExpertWeights),
            bias: m.bias(),
            num_experts: m.num_experts,
            k: m.num_active,
            mode,
            scaling,
        },
        Op::Sync,
    ]
}

/// Where the weighted expert outputs are summed: with an output projection the
/// latent sum, else directly the layer output.
pub open spec fn accumulator(m: &MoeLayer) -> Buf {
    if m.has_fc2 {
        Buf::MoeExpertOut
    } else {
        Buf::FfnDown
    }
}

/// Scratch for one expert's output: whichever of the two is not the accumulator.
pub open spec fn expert_scratch(m: &MoeLayer) -> Buf {
    if m.has_fc2 {
        Buf::FfnDown
    } else {
        Buf::MoeExpertOut
    }
}

/// What the experts read.
pub open spec fn expert_input(m: &MoeLayer) -> Buf {
    if m.has_fc1 {
        Buf::MoeLatent
    } else {
        Buf::Normed
    }
}

/// One expert, weighted and added to the accumulator.
pub open spec fn expert_ops(m: &MoeLayer, expert: nat, weight: u32) -> Seq<Op> {
    let eis = m.expert_intermediate_size;
    let input = ops::start(expert_input(m));
    let gu = Weight::ExpertGateUp { layer: m.layer };
    let up = Op::Linear {
        out: ops::start(Buf::MoeExpertUp),
        matrix: WLoc { weight: gu, byte_offset: m.up_offset(expert) as usize },
        input,
        out_dim: eis,
        in_dim: m.gate_up_in_dim,
    };
    let first = if m.has_gate_proj {
        seq![
            Op::Linear {
                out: ops::start(Buf::MoeExpertGate),
                matrix: WLoc { weight: gu, byte_offset: m.gate_up_offset(expert) as usize },
                input,
                out_dim: eis,
                in_dim: m.gate_up_in_dim,
            },
            up,
            Op::SiluMul {
                out: ops::start(Buf::MoeExpertAct),
                gate: ops::start(Buf::MoeExpertGate),
                up: ops::start(Buf::MoeExpertUp),
                len: eis,
            },
        ]
    } else {
        seq![
            up,
            Op::ReluSq {
                out: ops::start(Buf::MoeExpertAct),
                input: ops::start(Buf::MoeExpertUp),
                len: eis,
            },
        ]
    };
    first + seq![
        Op::Linear {
            out: ops::start(expert_scratch(m)),
            matrix: WLoc {
                weight: Weight::ExpertDown { layer: m.layer },
                byte_offset: m.down_offset(expert) as usize,
            },
            input: ops::start(Buf::MoeExpertAct),
            out_dim: m.gate_up_in_dim,
            in_dim: eis,
        },
        Op::ScaleAdd {
            dst: ops::start(accumulator(m)),
            src: ops::start(expert_scratch(m)),
            scale: weight,
            len: m.gate_up_in_dim,
        },
    ]
}

/// The first `count` routed experts, in routing order.
pub open spec fn experts_ops(m: &MoeLayer, ids: Seq<i32>, weights: Seq<u32>, count: nat) -> Seq<Op>
    decreases count,
{
    if count == 0 {
        Seq::empty()
    } else {
        experts_ops(m, ids, weights, (count - 1) as nat) + expert_ops(
            m,
            ids[count - 1] as nat,
            weights[count - 1],
        )
    }
}

/// The shared expert, added to the layer output, where the layer has one.
pub open spec fn shared_ops(m: &MoeLayer) -> Seq<Op> {
    if !m.has_shared {
        Seq::empty()
    } else {
        let up = Op::Linear {
            out: ops::start(Buf::MoeExpertUp),
            matrix: ops::whole(Weight::SharedUp { layer: m.layer }),
            input: ops::start(Buf::Normed),
            out_dim: m.shared_width(),
            in_dim: m.hidden_size,
        };
        let act = if m.has_gate_proj {
            seq![
                Op::Linear {
                    out: ops::start(Buf::MoeExpertGate),
                    matrix: ops::whole(Weight::SharedGateProj { layer: m.layer }),
                    input: ops::start(Buf::Normed),
                    out_dim: m.shared_width(),
                    in_dim: m.hidden_size,
                },
                Op::SiluMul {
                    out: ops::start(Buf::MoeExpertAct),
                    gate: ops::start(Buf::MoeExpertGate),
                    up: ops::start(Buf::MoeExpertUp),
                    len: m.shared_width(),
                },
            ]
        } else {
            seq![
                Op::ReluSq {
                    out: ops::start(Buf::MoeExpertAct),
                    input: ops::start(Buf::MoeExpertUp),
                    len: m.shared_width(),
                },
            ]
        };
        let down = Op::Linear {
            out: ops::start(Buf::MoeExpertOut),
            matrix: ops::whole(Weight::SharedDown { layer: m.layer }),
            input: ops::start(Buf::MoeExpertAct),
            out_dim: m.hidden_size,
            in_dim: m.shared_width(),
        };
        let combine = if m.has_shared_gate {
            Op::DotSigmoidScaleAdd {
                dst: ops::start(Buf::FfnDown),
                src: ops::start(Buf::MoeExpertOut),
                input: ops::start(Buf::Normed),
                weight: Weight::SharedExpertGate { layer: m.layer },
                len: m.hidden_size,
            }
        } else {
            Op::ScaleAdd {
                dst: ops::start(Buf::FfnDown),
                src: ops::start(Buf::MoeExpertOut),
                scale: ONE_F32,
                len: m.hidden_size,
            }
        };
        seq![up] + act + seq![down, combine]
    }
}

/// Everything after routing: experts, output projection, shared expert, residual.
pub open spec fn combine_ops(m: &MoeLayer, ids: Seq<i32>, weights: Seq<u32>) -> Seq<Op> {
    let fc1 = if m.has_fc1 {
        seq![
            Op::Linear {
                out: ops::start(Buf::MoeLatent),
                matrix: ops::whole(Weight::Fc1Latent { layer: m.layer }),
                input: ops::start(Buf::Normed),
                out_dim: m.gate_up_in_dim,
                in_dim: m.hidden_size,
            },
        ]
    } else {
        Seq::empty()
    };
    let zero = seq![
        Op::Zero {
            dst: ops::start(accumulator(m)),
            len: if m.has_fc2 { m.gate_up_in_dim } else { m.hidden_size },
        },
    ];
    let fc2 = if m.has_fc2 {
        seq![
            Op::Linear {
                out: ops::start(Buf::FfnDown),
                matrix: ops::whole(Weight::Fc2Latent { layer: m.layer }),
                input: ops::start(Buf::MoeExpertOut),
                out_dim: m.hidden_size,
                in_dim: m.gate_up_in_dim,
            },
        ]
    } else {
        Seq::empty()
    };
    fc1 + zero + experts_ops(m, ids, weights, m.num_active as nat) + fc2 + shared_ops(m) + seq![
        Op::ResidualAdd {
            out: ops::start(Buf::Hidden),
            a: ops::start(Buf::Residual),
            b: ops::start(Buf::FfnDown),
            len: m.hidden_size,
        },
    ]
}

/// Plans normalisation and routing of the token in the hidden buffer.
pub fn moe_route(m: &MoeLayer) -> (r: Vec<Op>)
    requires
        m.valid(),
    ensures
        r@ == route_ops(m),
{
    let (mode, scaling): (u32, u32) = gate_mode(m.gate_type);
    let r: Vec<Op> = vec![
        Op::RmsNorm {
            out: at(Buf::Normed),
            input: at(Buf::Hidden),
            weight: m.norm_weight(),
            dim: m.hidden_size,
            eps: m.eps,
            one_plus_w: m.one_plus_w,
        },
        Op::Copy { dst: at(Buf::Residual), src: at(Buf::Hidden), len: m.hidden_size },
        Op::Linear {
            out: at(Buf::MoeScores),
            matrix: all_of(Weight::Router { layer: m.layer }),
            input: at(Buf::Normed),
            out_dim: m.num_experts,
            in_dim: m.hidden_size,
        },
        Op::MoeGate {
            scores: at(Buf::MoeScores),
            ids: at(Buf::MoeExpertIds),
            weights: at(Buf::MoeExpertWeights),
            bias: m.score_bias(),
            num_experts: m.num_experts,
            k: m.num_active,
            mode,
            scaling,
        },
        Op::Sync,
    ];
    assert(r@ =~= route_ops(m));
    r
}

/// Plans one routed expert.
fn expert_plan(m: &MoeLayer, expert: usize, weight: u32) -> (r: Vec<Op>)
    requires
        m.valid(),
        expert < m.num_experts,
    ensures
        r@ == expert_ops(m, expert as nat, weight),
{
    let (gate_offset, up_offset, down_offset): (usize, usize, usize) = m.expert_offsets(expert);
    let eis: usize = m.expert_intermediate_size;
    let input = if m.has_fc1 {
        at(Buf::MoeLatent)
    } else {
        at(Buf::Normed)
    };
    let (accum, scratch) = if m.has_fc2 {
        (at(Buf::MoeExpertOut), at(Buf::FfnDown))
    } else {
        (at(Buf::FfnDown), at(Buf::MoeExpertOut))
    };
    let gu = Weight::ExpertGateUp { layer: m.layer };
    let up = Op::Linear {
        out: at(Buf::MoeExpertUp),
        matrix: WLoc { weight: gu, byte_offset: up_offset },
        input,
        out_dim: eis,
        in_dim: m.gate_up_in_dim,
    };
    let mut r: Vec<Op> = if m.has_gate_proj {
        vec![
            Op::Linear {
                out: at(Buf::MoeExpertGate),
                matrix: WLoc { weight: gu, byte_offset: gate_offset },
                input,
                out_dim: eis,
                in_dim: m.gate_up_in_dim,
            },
            up,
            Op::SiluMul {
                out: at(Buf::MoeExpertAct),
                gate: at(Buf::MoeExpertGate),
                up: at(Buf::MoeExpertUp),
                len: eis,
            },
        ]
    } else {
        vec![
            up,
            Op::ReluSq { out: at(Buf::MoeExpertAct), input: at(Buf::MoeExpertUp), len: eis },
        ]
    };
    r.push(
        Op::Linear {
            out: scratch,
            matrix: WLoc {
                weight: Weight::ExpertDown { layer: m.layer },
                byte_offset: down_offset,
            },
            input: at(Buf::MoeExpertAct),
            out_dim: m.gate_up_in_dim,
            in_dim: eis,
        },
    );
    r.push(Op::ScaleAdd { dst: accum, src: scratch, scale: weight, len: m.gate_up_in_dim });
    assert(r@ =~= expert_ops(m, expert as nat, weight));
    r
}

/// Plans the shared expert.
pub(crate) fn shared_plan(m: &MoeLayer) -> (r: Vec<Op>)
    ensures
        r@ == shared_ops(m),
{
    let mut r: Vec<Op> = Vec::new();
    if m.has_shared {
        let se_is: usize = m.shared_size();
        r.push(
            Op::Linear {
                out: at(Buf::MoeExpertUp),
                matrix: all_of(Weight::SharedUp { layer: m.layer }),
                input: at(Buf::Normed),
                out_dim: se_is,
                in_dim: m.hidden_size,
            },
        );
        if m.has_gate_proj {
            r.push(
                Op::Linear {
                    out: at(Buf::MoeExpertGate),
                    matrix: all_of(Weight::SharedGateProj { layer: m.layer }),
                    input: at(Buf::Normed),
                    out_dim: se_is,
                    in_dim: m.hidden_size,
                },
            );
            r.push(
                Op::SiluMul {
                    out: at(Buf::MoeExpertAct),
                    gate: at(Buf::MoeExpertGate),
                    up: at(Buf::MoeExpertUp),
                    len: se_is,
                },
            );
        } else {
            r.push(
                Op::ReluSq { out: at(Buf::MoeExpertAct), input: at(Buf::MoeExpertUp), len: se_is },
            );
        }
        r.push(
            Op::Linear {
                out: at(Buf::MoeExpertOut),
                matrix: all_of(Weight::SharedDown { layer: m.layer }),
                input: at(Buf::MoeExpertAct),
                out_dim: m.hidden_size,
                in_dim: se_is,
            },
        );
        if m.has_shared_gate {
            r.push(
                Op::DotSigmoidScaleAdd {
                    dst: at(Buf::FfnDown),
                    src: at(Buf::MoeExpertOut),
                    input: at(Buf::Normed),
                    weight: Weight::SharedExpertGate { layer: m.layer },
                    len: m.hidden_size,
                },
            );
        } else {
            r.push(
                Op::ScaleAdd {
                    dst: at(Buf::FfnDown),
                    src: at(Buf::MoeExpertOut),
                    scale: ONE_F32,
                    len: m.hidden_size,
                },
            );
        }
    }
    assert(r@ =~= shared_ops(m));
    r
}

/// Whether the routing names `num_active` experts of the layer, each with a weight.
pub open spec fn routing_ok(m: &MoeLayer, ids: Seq<i32>, weights: Seq<u32>) -> bool {
    &&& ids.len() >= m.num_active
    &&& weights.len() >= m.num_active
    &&& forall|j: int| 0 <= j < m.num_active ==> 0 <= (#[trigger] ids[j]) < m.num_experts
}

/// Plans everything after routing, given the experts the router chose and their
/// weights (`f32` bit patterns).
pub fn moe_ffn_forward(m: &MoeLayer, expert_ids: &[i32], expert_weights: &[u32]) -> (r: Vec<Op>)
    requires
        m.valid(),
        routing_ok(m, expert_ids@, expert_weights@),
    ensures
        r@ == combine_ops(m, expert_ids@, expert_weights@),
{
    let mut r: Vec<Op> = Vec::new();
    if m.has_fc1 {
        r.push(
            Op::Linear {
                out: at(Buf::MoeLatent),
                matrix: all_of(Weight::Fc1Latent { layer: m.layer }),
                input: at(Buf::Normed),
                out_dim: m.gate_up_in_dim,
                in_dim: m.hidden_size,
            },
        );
    }
    if m.has_fc2 {
        r.push(Op::Zero { dst: at(Buf::MoeExpertOut), len: m.gate_up_in_dim });
    } else {
        r.push(Op::Zero { dst: at(Buf::FfnDown), len: m.hidden_size });
    }
    let ghost head = r@;
    let k: usize = m.num_active;
    let mut j: usize = 0;
    assert(r@ =~= head + experts_ops(m, expert_ids@, expert_weights@, 0));
    while j < k
        invariant
            j <= k,
            k == m.num_active,
            m.valid(),
            routing_ok(m, expert_ids@, expert_weights@),
            r@ == head + experts_ops(m, expert_ids@, expert_weights@, j as nat),
        decreases k - j,
    {
        assert(0 <= expert_ids@[j as int] < m.num_experts);
        let mut one: Vec<Op> = expert_plan(m, expert_ids[j] as usize, expert_weights[j]);
        r.append(&mut one);
        proof {
            assert(r@ =~= head + experts_ops(m, expert_ids@, expert_weights@, (j + 1) as nat));
        }
        j += 1;
    }
    if m.has_fc2 {
        r.push(
            Op::Linear {
                out: at(Buf::FfnDown),
                matrix: all_of(Weight::Fc2Latent { layer: m.layer }),
                input: at(Buf::MoeExpertOut),
                out_dim: m.hidden_size,
                in_dim: m.gate_up_in_dim,
            },
        );
    }
    let mut shared = shared_plan(m);
    r.append(&mut shared);
    r.push(
        Op::ResidualAdd {
            out: at(Buf::Hidden),
            a: at(Buf::Residual),
            b: at(Buf::FfnDown),
            len: m.hidden_size,
        },
    );
    assert(r@ =~= combine_ops(m, expert_ids@, expert_weights@));
    r
}

} // verus!
