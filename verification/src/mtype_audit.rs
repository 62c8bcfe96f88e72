//! The memory-type audit of a decode path on several GPUs: which buffers are looked
//! at, in which order, and what the report calls them.

use vstd::prelude::*;
use crate::paged_kv::slots::DeviceId;
use crate::text;
use crate::text::{decimal_text, joined};

verus! {

/// A buffer that is looked at.
#[derive(Clone, Copy, Debug, PartialEq, Eq, Structural)]
pub enum Audited {
    Hidden,
    Normed,
    NormedStage,
    QAttn,
    KAttn,
    VAttn,
    GateAttn,
    AttnOut,
    GatedOut,
    Residual,
    LegacyK { layer: usize },
    LegacyV { layer: usize },
    WorkerNormed { worker: usize },
    WorkerQGate { worker: usize },
    WorkerK { worker: usize },
    WorkerV { worker: usize },
    WorkerGate { worker: usize },
    WorkerOut { worker: usize },
    WorkerCacheK { worker: usize, layer: usize },
    WorkerCacheV { worker: usize, layer: usize },
    OutputSlots,
    ActivationStaging,
}

/// A line of the report.
#[derive(Clone, Copy, Debug, PartialEq, Eq, Structural)]
pub enum AuditLine {
    Begin,
    Legend,
    Activations,
    Legacy,
    /// Stands for the layers that are not listed.
    LegacyLayers { total: usize },
    Worker { worker: usize, device: DeviceId },
    WorkerLayers { total: usize },
    P2p,
    /// Ask the driver about a buffer.
    Probe(Audited),
    End,
}

/// What a worker has allocated.
#[derive(Clone, Copy, Debug, PartialEq, Eq, Structural)]
pub struct AuditWorker {
    pub device: DeviceId,
    pub attn_normed: bool,
    pub attn_q_gate: bool,
    pub attn_k: bool,
    pub attn_v: bool,
    pub attn_gate: bool,
    pub attn_out: bool,
    pub kv_caches: usize,
}

/// `workers[w]` with the name of one of its fields.
pub open spec fn of_worker(w: nat, field: Seq<char>) -> Seq<char> {
    "workers["@ + text::decimal(w) + "]."@ + field
}

/// One of K and V of a cached layer.
pub open spec fn of_layer(owner: Seq<char>, layer: nat, part: Seq<char>) -> Seq<char> {
    owner + "["@ + text::decimal(layer) + "]."@ + part
}

impl Audited {
    pub open spec fn label(self) -> Seq<char> {
        match self {
            Audited::Hidden => "activations.hidden"@,
            Audited::Normed => "activations.normed"@,
            Audited::NormedStage => "activations.normed_stage"@,
            Audited::QAttn => "activations.q_attn"@,
            Audited::KAttn => "activations.k_attn"@,
            Audited::VAttn => "activations.v_attn"@,
            Audited::GateAttn => "activations.gate_attn"@,
            Audited::AttnOut => "activations.attn_out"@,
            Audited::GatedOut => "activations.gated_out"@,
            Audited::Residual => "activations.residual"@,
            Audited::LegacyK { layer } => of_layer("legacy_kv_caches"@, layer as nat, "k"@),
            Audited::LegacyV { layer } => of_layer("legacy_kv_caches"@, layer as nat, "v"@),
            Audited::WorkerNormed { worker } => of_worker(worker as nat, "attn_normed"@),
            Audited::WorkerQGate { worker } => of_worker(worker as nat, "attn_q_gate"@),
            Audited::WorkerK { worker } => of_worker(worker as nat, "attn_k"@),
            Audited::WorkerV { worker } => of_worker(worker as nat, "attn_v"@),
            Audited::WorkerGate { worker } => of_worker(worker as nat, "attn_gate"@),
            Audited::WorkerOut { worker } => of_worker(worker as nat, "attn_out"@),
            Audited::WorkerCacheK { worker, layer } => of_layer(
                of_worker(worker as nat, "attn_kv_caches"@),
                layer as nat,
                "k"@,
            ),
            Audited::WorkerCacheV { worker, layer } => of_layer(
                of_worker(worker as nat, "attn_kv_caches"@),
                layer as nat,
                "v"@,
            ),
            Audited::OutputSlots => "moe_p2p.output_slots"@,
            Audited::ActivationStaging => "moe_p2p.activation_staging"@,
        }
    }

    /// What the report calls the buffer.
    pub fn text(self) -> (r: String)
        ensures
            r@ == self.label(),
    {
        match self {
            Audited::Hidden => "activations.hidden".to_owned(),
            Audited::Normed => "activations.normed".to_owned(),
            Audited::NormedStage => "activations.normed_stage".to_owned(),
            Audited::QAttn => "activations.q_attn".to_owned(),
            Audited::KAttn => "activations.k_attn".to_owned(),
            Audited::VAttn => "activations.v_attn".to_owned(),
            Audited::GateAttn => "activations.gate_attn".to_owned(),
            Audited::AttnOut => "activations.attn_out".to_owned(),
            Audited::GatedOut => "activations.gated_out".to_owned(),
            Audited::Residual => "activations.residual".to_owned(),
            Audited::LegacyK { layer } => layer_text("legacy_kv_caches", layer, "k"),
            Audited::LegacyV { layer } => layer_text("legacy_kv_caches", layer, "v"),
            Audited::WorkerNormed { worker } => worker_text(worker, "attn_normed"),
            Audited::WorkerQGate { worker } => worker_text(worker, "attn_q_gate"),
            Audited::WorkerK { worker } => worker_text(worker, "attn_k"),
            Audited::WorkerV { worker } => worker_text(worker, "attn_v"),
            Audited::WorkerGate { worker } => worker_text(worker, "attn_gate"),
            Audited::WorkerOut { worker } => worker_text(worker, "attn_out"),
            Audited::WorkerCacheK { worker, layer } => layer_text(
                worker_text(worker, "attn_kv_caches").as_str(),
                layer,
                "k",
            ),
            Audited::WorkerCacheV { worker, layer } => layer_text(
                worker_text(worker, "attn_kv_caches").as_str(),
                layer,
                "v",
            ),
            Audited::OutputSlots => "moe_p2p.output_slots".to_owned(),
            Audited::ActivationStaging => "moe_p2p.activation_staging".to_owned(),
        }
    }

    /// Buffers in host memory; all others are on a device.
    pub open spec fn in_host_memory(self) -> bool {
        match self {
            Audited::NormedStage => true,
            Audited::WorkerOut { .. } => true,
            Audited::OutputSlots => true,
            Audited::ActivationStaging => true,
            _ => false,
        }
    }

    /// Whether the buffer is in host memory.
    pub fn host(self) -> (r: bool)
        ensures
            r == self.in_host_memory(),
    {
        match self {
            Audited::NormedStage => true,
            Audited::WorkerOut { .. } => true,
            Audited::OutputSlots => true,
            Audited::ActivationStaging => true,
            _ => false,
        }
    }
}

fn worker_text(worker: usize, field: &str) -> (r: String)
    ensures
        r@ == of_worker(worker as nat, field@),
{
    let mut r: String = joined("workers[", decimal_text(worker).as_str());
    r.append("].");
    r.append(field);
    r
}

fn layer_text(owner: &str, layer: usize, part: &str) -> (r: String)
    ensures
        r@ == of_layer(owner@, layer as nat, part@),
{
    let mut r: String = joined(owner, "[");
    r.append(decimal_text(layer).as_str());
    r.append("].");
    r.append(part);
    r
}

impl AuditLine {
    /// The line as printed; a probe's line also holds what the driver answers.
    pub open spec fn label(self) -> Seq<char> {
        match self {
            AuditLine::Begin => "=== MTYPE audit (5ax-decode) ==="@,
            AuditLine::Legend =>
                "Legend: mem_type 1=Host 2=Device | alloc_flags 0x0=cached 0x1=fine-grained 0x3=UC"@,
            AuditLine::Activations => "-- activations (GPU 0) --"@,
            AuditLine::Legacy => "-- legacy_kv_caches (GPU 0, prefill K/V) --"@,
            AuditLine::LegacyLayers { total } => "  ... ("@ + text::decimal(total as nat)
                + " total layers)"@,
            AuditLine::Worker { worker, device } => "-- worker["@ + text::decimal(worker as nat)
                + "] (device "@ + text::decimal(device.0 as nat) + ") --"@,
            AuditLine::WorkerLayers { total } => "  ... ("@ + text::decimal(total as nat)
                + " attn_kv_cache layers)"@,
            AuditLine::P2p => "-- moe_p2p --"@,
            AuditLine::Probe(b) => b.label(),
            AuditLine::End => "=== end MTYPE audit ==="@,
        }
    }

    /// The line as printed; of a probe, the name of its buffer.
    pub fn text(self) -> (r: String)
        ensures
            r@ == self.label(),
    {
        match self {
            AuditLine::Begin => "=== MTYPE audit (5ax-decode) ===".to_owned(),
            AuditLine::Legend =>
                "Legend: mem_type 1=Host 2=Device | alloc_flags 0x0=cached 0x1=fine-grained 0x3=UC".to_owned(),
            AuditLine::Activations => "-- activations (GPU 0) --".to_owned(),
            AuditLine::Legacy => "-- legacy_kv_caches (GPU 0, prefill K/V) --".to_owned(),
            AuditLine::LegacyLayers { total } => {
                let mut r: String = joined("  ... (", decimal_text(total).as_str());
                r.append(" total layers)");
                r
            },
            AuditLine::Worker { worker, device } => {
                let mut r: String = joined("-- worker[", decimal_text(worker).as_str());
                r.append("] (device ");
                r.append(decimal_text(device.0 as usize).as_str());
                r.append(") --");
                r
            },
            AuditLine::WorkerLayers { total } => {
                let mut r: String = joined("  ... (", decimal_text(total).as_str());
                r.append(" attn_kv_cache layers)");
                r
            },
            AuditLine::P2p => "-- moe_p2p --".to_owned(),
            AuditLine::Probe(b) => b.text(),
            AuditLine::End => "=== end MTYPE audit ===".to_owned(),
        }
    }
}

/// A buffer's line, where the buffer exists.
pub open spec fn probe_if(there: bool, b: Audited) -> Seq<AuditLine> {
    if there {
        seq![AuditLine::Probe(b)]
    } else {
        Seq::empty()
    }
}

/// The activations of GPU 0.
pub open spec fn activation_lines() -> Seq<AuditLine> {
    seq![
        AuditLine::Activations,
        AuditLine::Probe(Audited::Hidden),
        AuditLine::Probe(Audited::Normed),
        AuditLine::Probe(Audited::NormedStage),
        AuditLine::Probe(Audited::QAttn),
        AuditLine::Probe(Audited::KAttn),
        AuditLine::Probe(Audited::VAttn),
        AuditLine::Probe(Audited::GateAttn),
        AuditLine::Probe(Audited::AttnOut),
        AuditLine::Probe(Audited::GatedOut),
        AuditLine::Probe(Audited::Residual),
    ]
}

/// The caches of `layers` layers on GPU 0: K of the first three, V of the first.
pub open spec fn legacy_lines(layers: usize) -> Seq<AuditLine> {
    seq![AuditLine::Legacy] + probe_if(layers > 0, Audited::LegacyK { layer: 0 }) + probe_if(
        layers > 0,
        Audited::LegacyV { layer: 0 },
    ) + probe_if(layers > 1, Audited::LegacyK { layer: 1 }) + probe_if(
        layers > 2,
        Audited::LegacyK { layer: 2 },
    ) + if layers > 2 {
        seq![AuditLine::LegacyLayers { total: layers }]
    } else {
        Seq::empty()
    }
}

/// What worker `worker` has, and the caches of its first two layers.
pub open spec fn worker_lines(w: &AuditWorker, worker: usize) -> Seq<AuditLine> {
    seq![AuditLine::Worker { worker, device: w.device }] + probe_if(
        w.attn_normed,
        Audited::WorkerNormed { worker },
    ) + probe_if(w.attn_q_gate, Audited::WorkerQGate { worker }) + probe_if(
        w.attn_k,
        Audited::WorkerK { worker },
    ) + probe_if(w.attn_v, Audited::WorkerV { worker }) + probe_if(
        w.attn_gate,
        Audited::WorkerGate { worker },
    ) + probe_if(w.attn_out, Audited::WorkerOut { worker }) + probe_if(
        w.kv_caches > 0,
        Audited::WorkerCacheK { worker, layer: 0 },
    ) + probe_if(w.kv_caches > 0, Audited::WorkerCacheV { worker, layer: 0 }) + probe_if(
        w.kv_caches > 1,
        Audited::WorkerCacheK { worker, layer: 1 },
    ) + probe_if(w.kv_caches > 1, Audited::WorkerCacheV { worker, layer: 1 }) + if w.kv_caches
        > 2 {
        seq![AuditLine::WorkerLayers { total: w.kv_caches }]
    } else {
        Seq::empty()
    }
}

/// The first `count` workers.
pub open spec fn workers_lines(workers: Seq<AuditWorker>, count: nat) -> Seq<AuditLine>
    decreases count,
{
    if count == 0 {
        Seq::empty()
    } else {
        workers_lines(workers, (count - 1) as nat) + worker_lines(
            &workers[count - 1],
            (count - 1) as usize,
        )
    }
}

/// The expert GPUs' shared buffers, where there are any.
pub open spec fn p2p_lines(p2p: bool) -> Seq<AuditLine> {
    if p2p {
        seq![
            AuditLine::P2p,
            AuditLine::Probe(Audited::OutputSlots),
            AuditLine::Probe(Audited::ActivationStaging),
        ]
    } else {
        Seq::empty()
    }
}

/// The whole report.
pub open spec fn report(legacy: Option<usize>, workers: Seq<AuditWorker>, p2p: bool) -> Seq<
    AuditLine,
> {
    seq![AuditLine::Begin, AuditLine::Legend] + activation_lines() + (match legacy {
        Some(layers) => legacy_lines(layers),
        None => Seq::empty(),
    }) + workers_lines(workers, workers.len()) + p2p_lines(p2p) + seq![AuditLine::End]
}

fn push_if(r: &mut Vec<AuditLine>, there: bool, b: Audited)
    ensures
        final(r)@ == old(r)@ + probe_if(there, b),
{
    if there {
        r.push(AuditLine::Probe(b));
    }
    assert(r@ =~= old(r)@ + probe_if(there, b));
}

fn legacy_plan(layers: usize) -> (r: Vec<AuditLine>)
    ensures
        r@ == legacy_lines(layers),
{
    let mut r: Vec<AuditLine> = vec![AuditLine::Legacy];
    assert(r@ =~= seq![AuditLine::Legacy]);
    push_if(&mut r, layers > 0, Audited::LegacyK { layer: 0 });
    push_if(&mut r, layers > 0, Audited::LegacyV { layer: 0 });
    push_if(&mut r, layers > 1, Audited::LegacyK { layer: 1 });
    push_if(&mut r, layers > 2, Audited::LegacyK { layer: 2 });
    if layers > 2 {
        r.push(AuditLine::LegacyLayers { total: layers });
    }
    assert(r@ =~= legacy_lines(layers));
    r
}

fn worker_plan(w: &AuditWorker, worker: usize) -> (r: Vec<AuditLine>)
    ensures
        r@ == worker_lines(w, worker),
{
    let mut r: Vec<AuditLine> = vec![AuditLine::Worker { worker, device: w.device }];
    assert(r@ =~= seq![AuditLine::Worker { worker, device: w.device }]);
    push_if(&mut r, w.attn_normed, Audited::WorkerNormed { worker });
    push_if(&mut r, w.attn_q_gate, Audited::WorkerQGate { worker });
    push_if(&mut r, w.attn_k, Audited::WorkerK { worker });
    push_if(&mut r, w.attn_v, Audited::WorkerV { worker });
    push_if(&mut r, w.attn_gate, Audited::WorkerGate { worker });
    push_if(&mut r, w.attn_out, Audited::WorkerOut { worker });
    push_if(&mut r, w.kv_caches > 0, Audited::WorkerCacheK { worker, layer: 0 });
    push_if(&mut r, w.kv_caches > 0, Audited::WorkerCacheV { worker, layer: 0 });
    push_if(&mut r, w.kv_caches > 1, Audited::WorkerCacheK { worker, layer: 1 });
    push_if(&mut r, w.kv_caches > 1, Audited::WorkerCacheV { worker, layer: 1 });
    if w.kv_caches > 2 {
        r.push(AuditLine::WorkerLayers { total: w.kv_caches });
    }
    assert(r@ =~= worker_lines(w, worker));
    r
}

/// Plans the report. `legacy` is the number of layers with a cache of the older
/// kind, where GPU 0 keeps such caches; `p2p` says whether the expert GPUs share
/// buffers.
pub fn dump(legacy: Option<usize>, workers: &Vec<AuditWorker>, p2p: bool) -> (r: Vec<AuditLine>)
    ensures
        r@ == report(legacy, workers@, p2p),
{
    let mut r: Vec<AuditLine> = vec![
        AuditLine::Begin,
        AuditLine::Legend,
        AuditLine::Activations,
        AuditLine::Probe(Audited::Hidden),
        AuditLine::Probe(Audited::Normed),
        AuditLine::Probe(Audited::NormedStage),
        AuditLine::Probe(Audited::QAttn),
        AuditLine::Probe(Audited::KAttn),
        AuditLine::Probe(Audited::VAttn),
        AuditLine::Probe(Audited::GateAttn),
        AuditLine::Probe(Audited::AttnOut),
        AuditLine::Probe(Audited::GatedOut),
        AuditLine::Probe(Audited::Residual),
    ];
    assert(r@ =~= seq![AuditLine::Begin, AuditLine::Legend] + activation_lines());
    match legacy {
        Some(layers) => {
            let mut more = legacy_plan(layers);
            r.append(&mut more);
        },
        None => {},
    }
    let ghost first = r@;
    assert(first =~= seq![AuditLine::Begin, AuditLine::Legend] + activation_lines() + (
    match legacy {
        Some(layers) => legacy_lines(layers),
        None => Seq::empty(),
    }));
    let mut w: usize = 0;
    assert(r@ =~= first + workers_lines(workers@, 0));
    while w < workers.len()
        invariant
            w <= workers@.len(),
            r@ == first + workers_lines(workers@, w as nat),
        decreases workers@.len() - w,
    {
        let mut more = worker_plan(&workers[w], w);
        r.append(&mut more);
        assert(r@ =~= first + workers_lines(workers@, (w + 1) as nat));
        w += 1;
    }
    if p2p {
        r.push(AuditLine::P2p);
        r.push(AuditLine::Probe(Audited::OutputSlots));
        r.push(AuditLine::Probe(Audited::ActivationStaging));
    }
    r.push(AuditLine::End);
    assert(r@ =~= first + workers_lines(workers@, workers@.len()) + p2p_lines(p2p) + seq![
        AuditLine::End,
    ]);
    r
}

// ---- what is looked at ----

/// Whether a buffer of worker `worker` exists and is one of those looked at.
pub open spec fn worker_has(w: AuditWorker, worker: usize, b: Audited) -> bool {
    match b {
        Audited::WorkerNormed { worker: x } => x == worker && w.attn_normed,
        Audited::WorkerQGate { worker: x } => x == worker && w.attn_q_gate,
        Audited::WorkerK { worker: x } => x == worker && w.attn_k,
        Audited::WorkerV { worker: x } => x == worker && w.attn_v,
        Audited::WorkerGate { worker: x } => x == worker && w.attn_gate,
        Audited::WorkerOut { worker: x } => x == worker && w.attn_out,
        Audited::WorkerCacheK { worker: x, layer } => x == worker && layer < w.kv_caches && layer
            < 2,
        Audited::WorkerCacheV { worker: x, layer } => x == worker && layer < w.kv_caches && layer
            < 2,
        _ => false,
    }
}

/// Whether a buffer of GPU 0 exists and is one of those looked at.
pub open spec fn first_has(legacy: Option<usize>, b: Audited) -> bool {
    match b {
        Audited::LegacyK { layer } => legacy matches Some(n) && layer < n && layer < 3,
        Audited::LegacyV { layer } => legacy matches Some(n) && layer < n && layer < 1,
        Audited::Hidden => true,
        Audited::Normed => true,
        Audited::NormedStage => true,
        Audited::QAttn => true,
        Audited::KAttn => true,
        Audited::VAttn => true,
        Audited::GateAttn => true,
        Audited::AttnOut => true,
        Audited::GatedOut => true,
        Audited::Residual => true,
        _ => false,
    }
}

/// A buffer has a line.
pub open spec fn probed(lines: Seq<AuditLine>, b: Audited) -> bool {
    exists|k: int| 0 <= k < lines.len() && #[trigger] lines[k] == AuditLine::Probe(b)
}

proof fn lemma_probed_joined(x: Seq<AuditLine>, y: Seq<AuditLine>, b: Audited)
    ensures
        probed(x + y, b) <==> probed(x, b) || probed(y, b),
{
    if probed(x, b) {
        let k = choose|k: int| 0 <= k < x.len() && #[trigger] x[k] == AuditLine::Probe(b);
        assert((x + y)[k] == AuditLine::Probe(b));
    }
    if probed(y, b) {
        let k = choose|k: int| 0 <= k < y.len() && #[trigger] y[k] == AuditLine::Probe(b);
        assert((x + y)[x.len() + k] == AuditLine::Probe(b));
    }
    if probed(x + y, b) {
        let k = choose|k: int|
            0 <= k < (x + y).len() && #[trigger] (x + y)[k] == AuditLine::Probe(b);
        if k < x.len() {
            assert(x[k] == AuditLine::Probe(b));
        } else {
            assert(y[k - x.len()] == AuditLine::Probe(b));
        }
    }
}

proof fn lemma_probe_if(there: bool, b: Audited, c: Audited)
    ensures
        probed(probe_if(there, b), c) <==> there && b == c,
{
    if there && b == c {
        assert(probe_if(there, b)[0] == AuditLine::Probe(c));
    }
}

proof fn lemma_worker_lines(w: &AuditWorker, worker: usize, b: Audited)
    ensures
        probed(worker_lines(w, worker), b) <==> worker_has(*w, worker, b),
{
    let first = seq![AuditLine::Worker { worker, device: w.device }];
    let last = if w.kv_caches > 2 {
        seq![AuditLine::WorkerLayers { total: w.kv_caches }]
    } else {
        Seq::empty()
    };
    assert(!probed(first, b));
    assert(!probed(last, b));
    let p1 = probe_if(w.attn_normed, Audited::WorkerNormed { worker });
    let p2 = probe_if(w.attn_q_gate, Audited::WorkerQGate { worker });
    let p3 = probe_if(w.attn_k, Audited::WorkerK { worker });
    let p4 = probe_if(w.attn_v, Audited::WorkerV { worker });
    let p5 = probe_if(w.attn_gate, Audited::WorkerGate { worker });
    let p6 = probe_if(w.attn_out, Audited::WorkerOut { worker });
    let p7 = probe_if(w.kv_caches > 0, Audited::WorkerCacheK { worker, layer: 0 });
    let p8 = probe_if(w.kv_caches > 0, Audited::WorkerCacheV { worker, layer: 0 });
    let p9 = probe_if(w.kv_caches > 1, Audited::WorkerCacheK { worker, layer: 1 });
    let p10 = probe_if(w.kv_caches > 1, Audited::WorkerCacheV { worker, layer: 1 });
    lemma_probe_if(w.attn_normed, Audited::WorkerNormed { worker }, b);
    lemma_probe_if(w.attn_q_gate, Audited::WorkerQGate { worker }, b);
    lemma_probe_if(w.attn_k, Audited::WorkerK { worker }, b);
    lemma_probe_if(w.attn_v, Audited::WorkerV { worker }, b);
    lemma_probe_if(w.attn_gate, Audited::WorkerGate { worker }, b);
    lemma_probe_if(w.attn_out, Audited::WorkerOut { worker }, b);
    lemma_probe_if(w.kv_caches > 0, Audited::WorkerCacheK { worker, layer: 0 }, b);
    lemma_probe_if(w.kv_caches > 0, Audited::WorkerCacheV { worker, layer: 0 }, b);
    lemma_probe_if(w.kv_caches > 1, Audited::WorkerCacheK { worker, layer: 1 }, b);
    lemma_probe_if(w.kv_caches > 1, Audited::WorkerCacheV { worker, layer: 1 }, b);
    lemma_probed_joined(first, p1, b);
    lemma_probed_joined(first + p1, p2, b);
    lemma_probed_joined(first + p1 + p2, p3, b);
    lemma_probed_joined(first + p1 + p2 + p3, p4, b);
    lemma_probed_joined(first + p1 + p2 + p3 + p4, p5, b);
    lemma_probed_joined(first + p1 + p2 + p3 + p4 + p5, p6, b);
    lemma_probed_joined(first + p1 + p2 + p3 + p4 + p5 + p6, p7, b);
    lemma_probed_joined(first + p1 + p2 + p3 + p4 + p5 + p6 + p7, p8, b);
    lemma_probed_joined(first + p1 + p2 + p3 + p4 + p5 + p6 + p7 + p8, p9, b);
    lemma_probed_joined(first + p1 + p2 + p3 + p4 + p5 + p6 + p7 + p8 + p9, p10, b);
    lemma_probed_joined(first + p1 + p2 + p3 + p4 + p5 + p6 + p7 + p8 + p9 + p10, last, b);
}

proof fn lemma_workers_lines(workers: Seq<AuditWorker>, count: nat, b: Audited)
    requires
        count <= workers.len(),
        count <= usize::MAX,
    ensures
        probed(workers_lines(workers, count), b) <==> exists|w: int|
            0 <= w < count && worker_has(#[trigger] workers[w], w as usize, b),
    decreases count,
{
    if count > 0 {
        let n = (count - 1) as nat;
        lemma_workers_lines(workers, n, b);
        lemma_worker_lines(&workers[n as int], n as usize, b);
        lemma_probed_joined(
            workers_lines(workers, n),
            worker_lines(&workers[n as int], n as usize),
            b,
        );
    }
}

proof fn lemma_first_lines(legacy: Option<usize>, b: Audited)
    ensures
        ({
            let more = match legacy {
                Some(layers) => legacy_lines(layers),
                None => Seq::empty(),
            };
            probed(activation_lines(), b) || probed(more, b) <==> first_has(legacy, b)
        }),
{
    let a = activation_lines();
    let k: int = match b {
        Audited::Hidden => 1,
        Audited::Normed => 2,
        Audited::NormedStage => 3,
        Audited::QAttn => 4,
        Audited::KAttn => 5,
        Audited::VAttn => 6,
        Audited::GateAttn => 7,
        Audited::AttnOut => 8,
        Audited::GatedOut => 9,
        Audited::Residual => 10,
        _ => 0,
    };
    if k > 0 {
        assert(a[k] == AuditLine::Probe(b));
    } else {
        assert(!probed(a, b));
    }
    if let Some(layers) = legacy {
        let head = seq![AuditLine::Legacy];
        let last = if layers > 2 {
            seq![AuditLine::LegacyLayers { total: layers }]
        } else {
            Seq::empty()
        };
        let p1 = probe_if(layers > 0, Audited::LegacyK { layer: 0 });
        let p2 = probe_if(layers > 0, Audited::LegacyV { layer: 0 });
        let p3 = probe_if(layers > 1, Audited::LegacyK { layer: 1 });
        let p4 = probe_if(layers > 2, Audited::LegacyK { layer: 2 });
        assert(!probed(head, b));
        assert(!probed(last, b));
        lemma_probe_if(layers > 0, Audited::LegacyK { layer: 0 }, b);
        lemma_probe_if(layers > 0, Audited::LegacyV { layer: 0 }, b);
        lemma_probe_if(layers > 1, Audited::LegacyK { layer: 1 }, b);
        lemma_probe_if(layers > 2, Audited::LegacyK { layer: 2 }, b);
        lemma_probed_joined(head, p1, b);
        lemma_probed_joined(head + p1, p2, b);
        lemma_probed_joined(head + p1 + p2, p3, b);
        lemma_probed_joined(head + p1 + p2 + p3, p4, b);
        lemma_probed_joined(head + p1 + p2 + p3 + p4, last, b);
    }
}

/// A buffer is looked at exactly where it exists: GPU 0's activations always, its caches of
/// the first layers, each worker's own buffers, and what the expert GPUs share.
pub proof fn law_existing_probed(
    legacy: Option<usize>,
    workers: Seq<AuditWorker>,
    p2p: bool,
    b: Audited,
)
    requires
        workers.len() <= usize::MAX,
    ensures
        probed(report(legacy, workers, p2p), b) <==> {
            ||| first_has(legacy, b)
            ||| exists|w: int|
                0 <= w < workers.len() && worker_has(#[trigger] workers[w], w as usize, b)
            ||| p2p && (b == Audited::OutputSlots || b == Audited::ActivationStaging)
        },
        report(legacy, workers, p2p)[0] == AuditLine::Begin,
        report(legacy, workers, p2p).last() == AuditLine::End,
{
    let head = seq![AuditLine::Begin, AuditLine::Legend];
    let a = activation_lines();
    let more = match legacy {
        Some(layers) => legacy_lines(layers),
        None => Seq::empty(),
    };
    let w = workers_lines(workers, workers.len());
    let p = p2p_lines(p2p);
    let end = seq![AuditLine::End];
    lemma_first_lines(legacy, b);
    lemma_workers_lines(workers, workers.len(), b);
    assert(!probed(head, b));
    assert(!probed(end, b));
    if p2p {
        assert(p[1] == AuditLine::Probe(Audited::OutputSlots));
        assert(p[2] == AuditLine::Probe(Audited::ActivationStaging));
    }
    lemma_probed_joined(head, a, b);
    lemma_probed_joined(head + a, more, b);
    lemma_probed_joined(head + a + more, w, b);
    lemma_probed_joined(head + a + more + w, p, b);
    lemma_probed_joined(head + a + more + w + p, end, b);
}

} // verus!
