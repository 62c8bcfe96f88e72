use braidinfer_runtime::paged_kv::slots::DeviceId;
use braidinfer_runtime::per_batch_dispatch::{
    AckTarget, DispatchError, Instruction, PerBatchDispatch, MAX_BATCH_INSTRUCTIONS,
};

fn dispatch() -> PerBatchDispatch {
    PerBatchDispatch::init_with_total(3, &[DeviceId(1), DeviceId(2)], &[0, 2], 48, 1024)
}

fn inst(op: u64) -> Instruction {
    Instruction { words: vec![op, 7] }
}

#[test]
fn workers_sit_at_their_device_number() {
    let d = dispatch();
    assert!(!d.has_worker(0));
    assert!(d.has_worker(1));
    assert!(d.has_worker(2));
    assert!(!d.has_worker(3));
    assert_eq!(d.num_gpus(), 2);
}

#[test]
fn a_worker_launches_at_least_one_block_per_compute_unit() {
    let mut d = dispatch();
    assert_eq!(d.dispatch_batch_fire(1, &[]).num_blocks, 48);
    assert_eq!(d.dispatch_batch_fire(2, &[]).num_blocks, 96);
}

#[test]
fn a_device_beyond_the_slots_extends_them() {
    let mut d = dispatch();
    d.add_device(DeviceId(5), 1, 60, 512);
    assert!(d.has_worker(5));
    assert!(!d.has_worker(4));
    assert_eq!(d.num_gpus(), 3);
    let l = d.dispatch_batch_fire(5, &[inst(1)]);
    assert_eq!((l.device, l.num_blocks, l.shared_mem, l.seq), (DeviceId(5), 60, 512, 1));
}

#[test]
fn launches_are_numbered_per_gpu() {
    let mut d = dispatch();
    assert_eq!(d.dispatch_batch_fire(1, &[inst(3)]).seq, 1);
    assert_eq!(d.dispatch_batch_fire(2, &[inst(3)]).seq, 1);
    let l = d.dispatch_batch_fire(1, &[inst(4), inst(5)]);
    assert_eq!(l.seq, 2);
    assert_eq!(l.num_inst, 2);
    assert_eq!(l.words, vec![4, 7, 5, 7]);
}

#[test]
fn a_long_list_is_cut_into_launches() {
    let mut d = dispatch();
    let insts: Vec<Instruction> = (0..600).map(inst).collect();
    let launches = d.dispatch_batch_slice(1, &insts);
    assert_eq!(launches.len(), 3);
    let sizes: Vec<usize> = launches.iter().map(|l| l.num_inst).collect();
    assert_eq!(sizes, vec![MAX_BATCH_INSTRUCTIONS, MAX_BATCH_INSTRUCTIONS, 88]);
    let words: Vec<u64> = launches.iter().flat_map(|l| l.words.clone()).collect();
    let expected: Vec<u64> = (0..600).flat_map(|i| vec![i, 7]).collect();
    assert_eq!(words, expected);
    assert_eq!(launches[2].seq, 3);
    assert!(d.dispatch_batch_slice(1, &[]).is_empty());
}

#[test]
fn every_known_gpu_is_awaited_once() {
    let d = dispatch();
    let targets = [
        AckTarget { gpu: 2, seq: 4 },
        AckTarget { gpu: 9, seq: 1 },
        AckTarget { gpu: 2, seq: 5 },
        AckTarget { gpu: 1, seq: 8 },
    ];
    assert_eq!(
        d.ack_order(&targets),
        vec![AckTarget { gpu: 2, seq: 4 }, AckTarget { gpu: 1, seq: 8 }]
    );
    assert_eq!(d.try_wait_acks_many(&targets, &[true, true]), Ok(()));
}

#[test]
fn the_first_wait_that_fails_is_reported() {
    let d = dispatch();
    let targets = [AckTarget { gpu: 2, seq: 4 }, AckTarget { gpu: 1, seq: 8 }];
    match d.try_wait_acks_many(&targets, &[true, false]) {
        Err(DispatchError::Timeout { gpu, seq, .. }) => assert_eq!((gpu, seq), (1, 8)),
        Ok(()) => panic!("the second wait failed"),
    }
}

#[test]
fn the_profile_address_is_kept() {
    let mut d = dispatch();
    assert_eq!(d.op_profile_dev_ptr, 0);
    d.set_op_profile_ptr(0x77);
    assert_eq!(d.op_profile_dev_ptr, 0x77);
}
