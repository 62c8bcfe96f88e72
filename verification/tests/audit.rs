use braidinfer_runtime::mtype_audit::{dump, AuditLine, AuditWorker, Audited};
use braidinfer_runtime::paged_kv::slots::DeviceId;

fn worker(kv_caches: usize) -> AuditWorker {
    AuditWorker {
        device: DeviceId(3),
        attn_normed: true,
        attn_q_gate: false,
        attn_k: true,
        attn_v: true,
        attn_gate: false,
        attn_out: true,
        kv_caches,
    }
}

fn lines(legacy: Option<usize>, workers: Vec<AuditWorker>, p2p: bool) -> Vec<String> {
    dump(legacy, &workers, p2p).into_iter().map(|l| l.text()).collect()
}

#[test]
fn a_single_gpu_reports_its_activations() {
    let r = lines(None, vec![], false);
    assert_eq!(r.len(), 14);
    assert_eq!(r[0], "=== MTYPE audit (5ax-decode) ===");
    assert_eq!(r[2], "-- activations (GPU 0) --");
    assert_eq!(r[3], "activations.hidden");
    assert_eq!(r[12], "activations.residual");
    assert_eq!(r[13], "=== end MTYPE audit ===");
}

#[test]
fn older_caches_are_cut_after_three_layers() {
    assert_eq!(lines(Some(0), vec![], false)[13..14], ["-- legacy_kv_caches (GPU 0, prefill K/V) --"]);
    assert_eq!(
        lines(Some(2), vec![], false)[14..17],
        ["legacy_kv_caches[0].k", "legacy_kv_caches[0].v", "legacy_kv_caches[1].k"]
    );
    let r = lines(Some(9), vec![], false);
    assert_eq!(r[17], "legacy_kv_caches[2].k");
    assert_eq!(r[18], "  ... (9 total layers)");
    assert_eq!(r.len(), 20);
}

#[test]
fn a_worker_reports_what_it_has() {
    let r = lines(None, vec![worker(1), worker(5)], true);
    assert_eq!(r[13], "-- worker[0] (device 3) --");
    assert_eq!(
        r[14..20],
        [
            "workers[0].attn_normed",
            "workers[0].attn_k",
            "workers[0].attn_v",
            "workers[0].attn_out",
            "workers[0].attn_kv_caches[0].k",
            "workers[0].attn_kv_caches[0].v",
        ]
    );
    assert_eq!(r[20], "-- worker[1] (device 3) --");
    assert_eq!(r[28], "workers[1].attn_kv_caches[1].v");
    assert_eq!(r[29], "  ... (5 attn_kv_cache layers)");
    assert_eq!(
        r[30..33],
        ["-- moe_p2p --", "moe_p2p.output_slots", "moe_p2p.activation_staging"]
    );
}

#[test]
fn shared_buffers_are_in_host_memory() {
    assert!(Audited::NormedStage.host());
    assert!(Audited::OutputSlots.host());
    assert!(Audited::WorkerOut { worker: 1 }.host());
    assert!(!Audited::Hidden.host());
    assert!(!Audited::WorkerCacheK { worker: 1, layer: 0 }.host());
    assert_eq!(AuditLine::Probe(Audited::Hidden).text(), Audited::Hidden.text());
}
