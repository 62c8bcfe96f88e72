//! Runs expert plans on whole numbers, where summands may come in any order.

use braidinfer_runtime::config::{GateType, LayerType};
use braidinfer_runtime::model::moe_forward::{moe_ffn_forward, moe_route, MoeLayer};
use braidinfer_runtime::model::moe_prefill::{
    moe_ffn_forward_prefill_batched, moe_prefill_route, LocalExperts,
};
use braidinfer_runtime::model::moe_prefill_single::{
    batch_steps, moe_ffn_forward_prefill_single_gpu_batched, moe_single_route, token_copies,
    uses_batched_gemm, BatchStep,
};
use braidinfer_runtime::moe_p2p::MAX_ACTIVE_EXPERTS;
use braidinfer_runtime::ops::{at, Buf, Inst, Loc, Op, WLoc, Weight, WeightFormat, ONE_F32};

const SIZE: usize = 4096;

/// Buffers of whole numbers, made when first used.
struct Memory {
    bufs: Vec<(Buf, Vec<i64>)>,
    tokens: Vec<i32>,
    shares: Vec<u32>,
}

impl Memory {
    fn new() -> Self {
        Memory { bufs: vec![], tokens: vec![], shares: vec![] }
    }

    fn buf(&mut self, b: Buf) -> &mut Vec<i64> {
        let at = match self.bufs.iter().position(|(x, _)| *x == b) {
            Some(i) => i,
            None => {
                self.bufs.push((b, vec![-77; SIZE]));
                self.bufs.len() - 1
            }
        };
        &mut self.bufs[at].1
    }

    fn read(&mut self, l: Loc, len: usize) -> Vec<i64> {
        self.buf(l.buf)[l.offset..l.offset + len].to_vec()
    }

    fn write(&mut self, l: Loc, v: &[i64]) {
        self.buf(l.buf)[l.offset..l.offset + v.len()].copy_from_slice(v);
    }

    fn run(&mut self, op: Op) {
        match op {
            Op::Copy { dst, src, len } => {
                let v = self.read(src, len);
                self.write(dst, &v);
            }
            Op::Zero { dst, len } => self.write(dst, &vec![0; len]),
            Op::RmsNorm { out, input, dim, .. } => {
                let x = self.read(input, dim);
                let all: i64 = x.iter().sum();
                let v: Vec<i64> = x.iter().map(|e| e * 3 + all % 5).collect();
                self.write(out, &v);
            }
            Op::Linear { out, matrix, input, out_dim, in_dim } => {
                let x = self.read(input, in_dim);
                self.write(out, &project(matrix, &x, out_dim));
            }
            Op::LinearBatched { out, matrix, input, out_dim, in_dim, rows } => {
                for r in 0..rows {
                    let x = self.read(shifted(input, r * in_dim), in_dim);
                    self.write(shifted(out, r * out_dim), &project(matrix, &x, out_dim));
                }
            }
            Op::SiluMul { out, gate, up, len } => {
                let (g, u) = (self.read(gate, len), self.read(up, len));
                let v: Vec<i64> = g.iter().zip(&u).map(|(g, u)| (g % 11) * (u % 13)).collect();
                self.write(out, &v);
            }
            Op::ReluSq { out, input, len } => {
                let v: Vec<i64> =
                    self.read(input, len).iter().map(|e| (e % 9).max(0).pow(2)).collect();
                self.write(out, &v);
            }
            Op::ScaleAdd { dst, src, scale, len } => {
                let (d, s) = (self.read(dst, len), self.read(src, len));
                let v: Vec<i64> =
                    d.iter().zip(&s).map(|(d, s)| d + factor(scale) * s).collect();
                self.write(dst, &v);
            }
            Op::DotSigmoidScaleAdd { dst, src, input, len, .. } => {
                let (d, s, x) = (self.read(dst, len), self.read(src, len), self.read(input, len));
                let gate = x.iter().sum::<i64>() % 7;
                let v: Vec<i64> = d.iter().zip(&s).map(|(d, s)| d + gate * s).collect();
                self.write(dst, &v);
            }
            Op::ResidualAdd { out, a, b, len } => {
                let (a, b) = (self.read(a, len), self.read(b, len));
                let v: Vec<i64> = a.iter().zip(&b).map(|(a, b)| a + b).collect();
                self.write(out, &v);
            }
            Op::MoeGate { scores, ids, weights, num_experts, k, .. } => {
                let s = self.read(scores, num_experts);
                let first = s.iter().sum::<i64>().rem_euclid(num_experts as i64);
                let chosen: Vec<i64> =
                    (0..k as i64).map(|j| (first + 2 * j).rem_euclid(num_experts as i64)).collect();
                let shares: Vec<i64> = (0..k).map(|j| s[j].rem_euclid(50) + 1).collect();
                self.write(ids, &chosen);
                self.write(weights, &shares);
            }
            Op::Gather { out, input, rows, dim } => {
                for r in 0..rows {
                    let t = self.tokens[r] as usize;
                    let v = self.read(shifted(input, t * dim), dim);
                    self.write(shifted(out, r * dim), &v);
                }
            }
            Op::ScatterAdd { out, input, rows, dim } => {
                for r in 0..rows {
                    let t = self.tokens[r] as usize;
                    let share = factor(self.shares[r]);
                    let v = self.read(shifted(input, r * dim), dim);
                    let d = self.read(shifted(out, t * dim), dim);
                    let sum: Vec<i64> = d.iter().zip(&v).map(|(d, v)| d + share * v).collect();
                    self.write(shifted(out, t * dim), &sum);
                }
            }
            Op::Sync | Op::Nop => {}
            other => panic!("not an expert operation: {:?}", other),
        }
    }

    fn run_all(&mut self, ops: &[Op]) {
        for op in ops {
            self.run(*op);
        }
    }

    fn ids(&mut self, b: Buf, len: usize) -> Vec<i32> {
        self.buf(b)[..len].iter().map(|&v| v as i32).collect()
    }

    fn shares(&mut self, b: Buf, len: usize) -> Vec<u32> {
        self.buf(b)[..len].iter().map(|&v| v as u32).collect()
    }
}

fn shifted(l: Loc, by: usize) -> Loc {
    Loc { buf: l.buf, offset: l.offset + by }
}

fn factor(bits: u32) -> i64 {
    if bits == ONE_F32 {
        1
    } else {
        (bits % 97) as i64
    }
}

/// GPU 0's slot `i` holds expert `3 * i`; all strides are those of the layer's tensors.
fn origin(matrix: WLoc) -> WLoc {
    let m = layer(true, false, false);
    match matrix.weight {
        Weight::LocalExpertGateUp { layer } => {
            let (slot, part) = (matrix.byte_offset / 160, matrix.byte_offset % 160);
            WLoc { weight: Weight::ExpertGateUp { layer }, byte_offset: 3 * slot * 160 + part }
        }
        Weight::LocalExpertDown { layer } => {
            let bytes = m.gate_up_in_dim * 20;
            assert_eq!(matrix.byte_offset % bytes, 0);
            WLoc { weight: Weight::ExpertDown { layer }, byte_offset: 3 * matrix.byte_offset }
        }
        _ => matrix,
    }
}

fn project(matrix: WLoc, x: &[i64], out_dim: usize) -> Vec<i64> {
    let matrix = origin(matrix);
    let salt = format!("{:?}", matrix.weight).len() as i64 + matrix.byte_offset as i64;
    (0..out_dim as i64)
        .map(|i| {
            x.iter().enumerate().map(|(c, e)| e * ((salt + 3 * i + 7 * c as i64) % 5 - 2)).sum()
        })
        .collect()
}

fn layer(has_gate_proj: bool, has_shared: bool, has_shared_gate: bool) -> MoeLayer {
    MoeLayer {
        layer: 2,
        mixer: LayerType::Attention,
        hidden_size: 6,
        num_experts: 5,
        expert_intermediate_size: 4,
        gate_up_in_dim: 6,
        has_gate_proj,
        has_fc1: false,
        has_fc2: false,
        has_shared,
        has_shared_gate,
        has_score_bias: false,
        gate_up_format: WeightFormat::PcG32Q4,
        down_format: WeightFormat::PcG32Q4,
        num_active: 2,
        gate_type: GateType::Softmax,
        shared_intermediate_size: 3,
        config_intermediate_size: 4,
        eps: 9,
        one_plus_w: false,
    }
}

fn start() -> Memory {
    let mut m = Memory::new();
    for (i, e) in m.buf(Buf::PrefillHidden).iter_mut().enumerate() {
        *e = (i as i64 * 7) % 23 - 11;
    }
    m
}

fn token_by_token(m: &MoeLayer, n: usize) -> Vec<i64> {
    let mut mem = start();
    for t in 0..n {
        let (there, back) = token_copies(m, t);
        mem.run(there);
        mem.run_all(&moe_route(m));
        let ids = mem.ids(Buf::MoeExpertIds, m.num_active);
        let shares = mem.shares(Buf::MoeExpertWeights, m.num_active);
        mem.run_all(&moe_ffn_forward(m, &ids, &shares));
        mem.run(back);
    }
    mem.buf(Buf::PrefillHidden).clone()
}

fn expert_by_expert(m: &MoeLayer, n: usize) -> Vec<i64> {
    let mut mem = start();
    mem.run_all(&moe_single_route(m, n));
    let ids = mem.ids(Buf::PrefillMoeIds, n * m.num_active);
    let shares = mem.shares(Buf::PrefillMoeWeights, n * m.num_active);
    let plan = moe_ffn_forward_prefill_single_gpu_batched(m, &ids, &shares, n);
    mem.run(plan.clear);
    for e in &plan.experts {
        mem.tokens = e.token_indices.clone();
        mem.shares = e.token_weights.clone();
        mem.run_all(&e.ops);
    }
    mem.run_all(&plan.finish);
    mem.buf(Buf::PrefillHidden).clone()
}

fn run_insts(mem: &mut Memory, insts: &[Inst]) {
    for i in insts {
        mem.run(i.op);
    }
}

/// The experts of one worker for one token, as its own plan would run them.
fn worker_pass(m: &MoeLayer, x: &[i64], ids: &[i32], shares: &[u32], gpu: usize) -> Vec<i64> {
    let mut sum = vec![0i64; m.hidden_size];
    for (id, share) in ids.iter().zip(shares) {
        if *id as usize % 3 == gpu {
            let mut mem = Memory::new();
            mem.write(at(Buf::Normed), x);
            let one = MoeLayer { num_active: 1, has_shared: false, has_fc2: false, ..*m };
            let ops = moe_ffn_forward(&one, &[*id], &[*share]);
            mem.run_all(&ops[..ops.len() - 1]);
            for (s, v) in sum.iter_mut().zip(mem.read(at(Buf::FfnDown), m.hidden_size)) {
                *s += v;
            }
        }
    }
    sum
}

fn spread_over_gpus(m: &MoeLayer, n: usize) -> Vec<i64> {
    let rows = if m.has_gate_proj { 2 } else { 1 } * m.expert_intermediate_size;
    let local = LocalExperts {
        slot_map: vec![Some(0), None, None, Some(1), None],
        gate_up_expert_stride: rows * 20,
        down_expert_stride: m.gate_up_in_dim * 20,
        gate_up_row_stride: 20,
    };
    let mut mem = start();
    mem.write(at(Buf::ZeroBuffer), &vec![0; SIZE]);
    run_insts(&mut mem, &moe_prefill_route(m, n));
    let ids = mem.ids(Buf::PerTokenExpertIds, n * MAX_ACTIVE_EXPERTS);
    let shares = mem.shares(Buf::PerTokenExpertWeights, n * MAX_ACTIVE_EXPERTS);
    let plan = moe_ffn_forward_prefill_batched(m, &local, &ids, &shares, n, 3);
    for round in &plan.rounds {
        for (call, back) in round.calls.iter().zip(&round.readbacks) {
            assert_eq!(call.gpu, back.gpu);
            assert_eq!(back.bytes, m.hidden_size * 4);
            let staged =
                Loc { buf: Buf::ActivationStaging, offset: call.activation_offset };
            let x = mem.read(staged, m.gate_up_in_dim);
            let sum = worker_pass(m, &x, &round.expert_ids, &round.expert_weights, call.gpu);
            mem.write(Loc { buf: Buf::OutputSlots, offset: back.slot_offset }, &sum);
        }
    }
    for insts in plan.local.iter().chain(&plan.combine) {
        run_insts(&mut mem, insts);
    }
    mem.buf(Buf::PrefillHidden).clone()
}

#[test]
fn spreading_over_gpus_keeps_results() {
    for (shared, shared_gate) in [(false, false), (true, false), (true, true)] {
        for (has_fc2, n) in [(false, 0), (false, 1), (false, 7), (false, 20), (true, 2), (true, 9)] {
            let m = MoeLayer { has_fc2, ..layer(true, shared, shared_gate) };
            let spread = spread_over_gpus(&m, n);
            assert_eq!(spread, token_by_token(&m, n));
            let before = start().buf(Buf::PrefillHidden).clone();
            assert_eq!(spread[n * 6..], before[n * 6..]);
        }
    }
}

#[test]
fn grouping_by_expert_keeps_results() {
    for gate in [false, true] {
        for (shared, shared_gate) in [(false, false), (true, false), (true, true)] {
            let m = layer(gate, shared, shared_gate);
            assert!(uses_batched_gemm(&m, true));
            for n in [0, 1, 2, 7, 20] {
                let grouped = expert_by_expert(&m, n);
                assert_eq!(grouped, token_by_token(&m, n));
                let before = start().buf(Buf::PrefillHidden).clone();
                assert_eq!(grouped[n * 6..], before[n * 6..]);
                if n > 0 {
                    assert_ne!(grouped[..n * 6], before[..n * 6]);
                }
            }
        }
    }
}

#[test]
fn layers_that_cannot_be_grouped_go_token_by_token() {
    let m = layer(true, false, false);
    assert_eq!(batch_steps(&m, true, 3), vec![BatchStep::GroupedPass]);
    let packed_otherwise = MoeLayer { gate_up_format: WeightFormat::Bf16, ..m };
    let projected = MoeLayer { has_fc2: true, ..m };
    for (layer, loaded) in [(m, false), (packed_otherwise, true), (projected, true)] {
        let mut expected = vec![];
        for t in 0..3 {
            let (there, back) = token_copies(&layer, t);
            expected.extend([BatchStep::Run(there), BatchStep::TokenPass, BatchStep::Run(back)]);
        }
        assert_eq!(batch_steps(&layer, loaded, 3), expected);
        assert!(batch_steps(&layer, loaded, 0).is_empty());
    }
}
