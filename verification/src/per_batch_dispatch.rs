//! One-shot cooperative dispatch: instruction batches, launch numbering and which
//! streams to wait for. Launches and waits are described here and issued elsewhere.

use vstd::prelude::*;
use crate::arith;
use crate::paged_kv::slots::DeviceId;

verus! {

/// Instructions one launch may carry.
pub const MAX_BATCH_INSTRUCTIONS: usize = 256;

/// A device instruction as it is uploaded. The low half of the first word is the
/// opcode.
#[derive(Debug, PartialEq, Eq)]
pub struct Instruction {
    pub words: Vec<u64>,
}

impl View for Instruction {
    type V = Seq<u64>;

    open spec fn view(&self) -> Seq<u64> {
        self.words@
    }
}

/// The words of all instructions, one after another.
pub open spec fn flatten(insts: Seq<Instruction>) -> Seq<u64>
    decreases insts.len(),
{
    if insts.len() == 0 {
        Seq::empty()
    } else {
        flatten(insts.drop_last()) + insts.last()@
    }
}

/// A launch to issue: upload `words`, run `num_inst` instructions.
pub struct Launch {
    pub device: DeviceId,
    pub words: Vec<u64>,
    pub num_inst: usize,
    pub num_blocks: u32,
    pub shared_mem: u32,
    /// Number of this launch on its GPU, starting at 1.
    pub seq: u32,
    /// Where it reports its operation counters; 0 for nowhere.
    pub op_profile: u64,
}

/// One GPU that takes launches.
#[derive(Clone, Copy, Debug, PartialEq, Eq, Structural)]
pub struct PerBatchWorker {
    pub device: DeviceId,
    pub num_blocks: u32,
    pub shared_mem: u32,
    /// Launches issued so far.
    pub launch_counter: u32,
}

/// A stream to wait for, with the launch number to report if the wait fails.
#[derive(Clone, Copy, Debug, PartialEq, Eq, Structural)]
pub struct AckTarget {
    pub gpu: usize,
    pub seq: u32,
}

/// Why a dispatch failed.
#[derive(Clone, Copy, Debug, PartialEq, Eq, Structural)]
pub enum DispatchError {
    Timeout { gpu: usize, seq: u32, ack: u32, progress_pc: u32, block_alive_count: u32 },
}

/// The dispatcher: workers by device number, and the profile counters' address.
pub struct PerBatchDispatch {
    pub workers: Vec<Option<PerBatchWorker>>,
    pub op_profile_dev_ptr: u64,
}

/// Blocks a worker launches: one residency at least, on every compute unit.
pub open spec fn launch_blocks(blocks_per_sm: i32, num_cus: u32) -> nat {
    (if blocks_per_sm < 1 { 1 } else { blocks_per_sm as nat }) * num_cus as nat
}

/// The workers after `device` was armed.
pub open spec fn armed(
    workers: Seq<Option<PerBatchWorker>>,
    w: PerBatchWorker,
) -> Seq<Option<PerBatchWorker>> {
    let slot = w.device.0 as int;
    let grown = if slot < workers.len() {
        workers
    } else {
        workers + Seq::new((slot + 1 - workers.len()) as nat, |i: int| None)
    };
    grown.update(slot, Some(w))
}

/// How many GPUs have a worker.
pub open spec fn armed_count(workers: Seq<Option<PerBatchWorker>>) -> nat
    decreases workers.len(),
{
    if workers.len() == 0 {
        0
    } else {
        armed_count(workers.drop_last()) + if workers.last() is Some { 1nat } else { 0nat }
    }
}

/// Launch `i` of a long instruction list: the `i`-th piece of at most
/// `MAX_BATCH_INSTRUCTIONS`.
pub open spec fn batch(insts: Seq<Instruction>, i: int) -> Seq<Instruction> {
    let from = i * MAX_BATCH_INSTRUCTIONS;
    let to = if from + MAX_BATCH_INSTRUCTIONS < insts.len() {
        from + MAX_BATCH_INSTRUCTIONS
    } else {
        insts.len() as int
    };
    insts.subrange(from, to)
}

/// How many launches a list needs.
pub open spec fn batch_count(insts: Seq<Instruction>) -> nat {
    arith::ceil_div(insts.len() as int, MAX_BATCH_INSTRUCTIONS as int) as nat
}

/// Whether a wait for `gpu` is already listed.
pub open spec fn listed(order: Seq<AckTarget>, gpu: usize) -> bool {
    exists|i: int| 0 <= i < order.len() && (#[trigger] order[i]).gpu == gpu
}

/// The waits to make: each GPU once, at its first mention; unknown GPUs are skipped.
pub open spec fn wait_order(targets: Seq<AckTarget>, num_workers: nat) -> Seq<AckTarget>
    decreases targets.len(),
{
    if targets.len() == 0 {
        Seq::empty()
    } else {
        let rest = wait_order(targets.drop_last(), num_workers);
        let t = targets.last();
        if t.gpu >= num_workers || listed(rest, t.gpu) {
            rest
        } else {
            rest.push(t)
        }
    }
}

impl Launch {
    /// Worker `w` runs `insts` as its launch number `seq`, reporting to `profile`.
    pub open spec fn is_launch(
        &self,
        w: PerBatchWorker,
        insts: Seq<Instruction>,
        seq: nat,
        profile: u64,
    ) -> bool {
        &&& self.device == w.device
        &&& self.words@ == flatten(insts)
        &&& self.num_inst == insts.len()
        &&& self.num_blocks == w.num_blocks
        &&& self.shared_mem == w.shared_mem
        &&& self.seq == seq
        &&& self.op_profile == profile
    }
}

impl PerBatchDispatch {
    /// Whether `gpu` has a worker.
    pub open spec fn has(&self, gpu: int) -> bool {
        0 <= gpu < self.workers@.len() && self.workers@[gpu] is Some
    }

    /// Every target within the slots has a worker.
    pub open spec fn can_await(&self, targets: Seq<AckTarget>) -> bool {
        forall|i: int|
            0 <= i < targets.len() && (#[trigger] targets[i]).gpu < self.workers@.len()
                ==> self.has(targets[i].gpu as int)
    }

    /// Slots for `total_gpus` GPUs, with workers on `devices`. `blocks_per_sm[i]` is
    /// the occupancy that device `i` reports.
    pub fn init_with_total(
        total_gpus: usize,
        devices: &[DeviceId],
        blocks_per_sm: &[i32],
        num_cus: u32,
        shared_mem: u32,
    ) -> (r: Self)
        requires
            devices@.len() == blocks_per_sm@.len(),
            forall|i: int|
                0 <= i < devices@.len() ==> launch_blocks(#[trigger] blocks_per_sm@[i], num_cus)
                    <= u32::MAX,
            forall|i: int, j: int|
                0 <= i < j < devices@.len() ==> #[trigger] devices@[i] != #[trigger] devices@[j],
            forall|i: int| 0 <= i < devices@.len() ==> (#[trigger] devices@[i]).0 < usize::MAX,
        ensures
            r.op_profile_dev_ptr == 0,
            r.workers@.len() >= total_gpus,
            forall|g: int|
                0 <= g < r.workers@.len() ==> (#[trigger] r.workers@[g] is Some <==> exists|i: int|
                    0 <= i < devices@.len() && (#[trigger] devices@[i]).0 == g),
            forall|i: int|
                0 <= i < devices@.len() ==> {
                    let d = #[trigger] devices@[i];
                    &&& d.0 < r.workers@.len()
                    &&& r.workers@[d.0 as int] == Some(
                        PerBatchWorker {
                            device: d,
                            num_blocks: launch_blocks(blocks_per_sm@[i], num_cus) as u32,
                            shared_mem,
                            launch_counter: 0,
                        },
                    )
                },
            r.workers@.len() == total_gpus || exists|i: int|
                0 <= i < devices@.len() && (#[trigger] devices@[i]).0 + 1 == r.workers@.len(),
    {
        let mut workers: Vec<Option<PerBatchWorker>> = Vec::new();
        let mut k: usize = 0;
        while k < total_gpus
            invariant
                k <= total_gpus,
                workers@.len() == k,
                forall|g: int| 0 <= g < k ==> workers@[g] is None,
            decreases total_gpus - k,
        {
            workers.push(None);
            k += 1;
        }
        let mut dispatch = PerBatchDispatch { workers, op_profile_dev_ptr: 0 };
        let mut i: usize = 0;
        while i < devices.len()
            invariant
                i <= devices@.len(),
                devices@.len() == blocks_per_sm@.len(),
                forall|j: int|
                    0 <= j < devices@.len() ==> launch_blocks(
                        #[trigger] blocks_per_sm@[j],
                        num_cus,
                    ) <= u32::MAX,
                forall|a: int, b: int|
                    0 <= a < b < devices@.len() ==> #[trigger] devices@[a] != #[trigger] devices@[b],
                forall|j: int| 0 <= j < devices@.len() ==> (#[trigger] devices@[j]).0 < usize::MAX,
                dispatch.op_profile_dev_ptr == 0,
                dispatch.workers@.len() >= total_gpus,
                forall|g: int|
                    0 <= g < dispatch.workers@.len() ==> (#[trigger] dispatch.workers@[g] is Some
                        <==> exists|j: int| 0 <= j < i && (#[trigger] devices@[j]).0 == g),
                forall|j: int|
                    0 <= j < i ==> {
                        let d = #[trigger] devices@[j];
                        &&& d.0 < dispatch.workers@.len()
                        &&& dispatch.workers@[d.0 as int] == Some(
                            PerBatchWorker {
                                device: d,
                                num_blocks: launch_blocks(blocks_per_sm@[j], num_cus) as u32,
                                shared_mem,
                                launch_counter: 0,
                            },
                        )
                    },
                dispatch.workers@.len() == total_gpus || exists|j: int|
                    0 <= j < i && (#[trigger] devices@[j]).0 + 1 == dispatch.workers@.len(),
            decreases devices@.len() - i,
        {
            let ghost before = dispatch.workers@;
            let d = devices[i];
            proof {
                let g = d.0 as int;
                if g < before.len() && before[g] is Some {
                    let j = choose|j: int| 0 <= j < i && (#[trigger] devices@[j]).0 == g;
                    assert(devices@[j] != devices@[i as int]);
                }
            }
            dispatch.add_device(d, blocks_per_sm[i], num_cus, shared_mem);
            proof {
                let after = dispatch.workers@;
                assert forall|g: int| 0 <= g < after.len() implies (#[trigger] after[g] is Some
                    <==> exists|j: int| 0 <= j < i + 1 && (#[trigger] devices@[j]).0 == g) by {
                    if g == d.0 {
                        assert(devices@[i as int].0 == g);
                    } else {
                        if g < before.len() {
                            assert(after[g] == before[g]);
                            if exists|j: int| 0 <= j < i + 1 && (#[trigger] devices@[j]).0 == g {
                                let j = choose|j: int|
                                    0 <= j < i + 1 && (#[trigger] devices@[j]).0 == g;
                                assert(j < i);
                            }
                        } else {
                            assert(after[g] is None);
                            if exists|j: int| 0 <= j < i + 1 && (#[trigger] devices@[j]).0 == g {
                                let j = choose|j: int|
                                    0 <= j < i + 1 && (#[trigger] devices@[j]).0 == g;
                                assert(j < i);
                            }
                        }
                    }
                }
                assert forall|j: int| 0 <= j < i + 1 implies ({
                    let e = #[trigger] devices@[j];
                    &&& e.0 < after.len()
                    &&& after[e.0 as int] == Some(
                        PerBatchWorker {
                            device: e,
                            num_blocks: launch_blocks(blocks_per_sm@[j], num_cus) as u32,
                            shared_mem,
                            launch_counter: 0,
                        },
                    )
                }) by {
                    if j < i {
                        assert(devices@[j] != devices@[i as int]);
                    }
                }
                assert(devices@[i as int].0 == d.0);
            }
            i += 1;
        }
        dispatch
    }

    /// Where launches report their operation counters; 0 for nowhere.
    pub fn set_op_profile_ptr(&mut self, ptr: u64)
        ensures
            final(self).op_profile_dev_ptr == ptr,
            final(self).workers@ == old(self).workers@,
    {
        self.op_profile_dev_ptr = ptr;
    }

    /// Arms `device`, which must not have a worker yet.
    pub fn add_device(
        &mut self,
        device: DeviceId,
        blocks_per_sm: i32,
        num_cus: u32,
        shared_mem: u32,
    )
        requires
            launch_blocks(blocks_per_sm, num_cus) <= u32::MAX,
            device.0 < usize::MAX,
            !old(self).has(device.0 as int),
        ensures
            final(self).op_profile_dev_ptr == old(self).op_profile_dev_ptr,
            final(self).workers@ == armed(
                old(self).workers@,
                PerBatchWorker {
                    device,
                    num_blocks: launch_blocks(blocks_per_sm, num_cus) as u32,
                    shared_mem,
                    launch_counter: 0,
                },
            ),
    {
        let blocks: u32 = if blocks_per_sm < 1 {
            1
        } else {
            blocks_per_sm as u32
        };
        let num_blocks: u32 = blocks * num_cus;
        let slot: usize = device.0 as usize;
        let ghost start = self.workers@;
        while self.workers.len() <= slot
            invariant
                slot < usize::MAX,
                slot == device.0,
                self.op_profile_dev_ptr == old(self).op_profile_dev_ptr,
                start == old(self).workers@,
                start.len() <= self.workers@.len(),
                self.workers@.len() <= slot + 1 || self.workers@.len() == start.len(),
                forall|g: int| 0 <= g < start.len() ==> self.workers@[g] == start[g],
                forall|g: int| start.len() <= g < self.workers@.len() ==> self.workers@[g] is None,
            decreases slot + 1 - self.workers@.len(),
        {
            self.workers.push(None);
        }
        let w = PerBatchWorker { device, num_blocks, shared_mem, launch_counter: 0 };
        self.workers.set(slot, Some(w));
        assert(self.workers@ =~= armed(old(self).workers@, w));
    }

    /// The worker of `gpu`.
    fn worker(&self, gpu: usize) -> (r: PerBatchWorker)
        requires
            self.has(gpu as int),
        ensures
            Some(r) == self.workers@[gpu as int],
    {
        self.workers[gpu].unwrap()
    }

    /// Prepares one launch and numbers it.
    pub fn dispatch_batch_fire(&mut self, gpu: usize, instructions: &[Instruction]) -> (r: Launch)
        requires
            instructions@.len() <= MAX_BATCH_INSTRUCTIONS,
            old(self).has(gpu as int),
            old(self).workers@[gpu as int]->0.launch_counter < u32::MAX,
        ensures
            ({
                let w = old(self).workers@[gpu as int]->0;
                &&& r.is_launch(
                    w,
                    instructions@,
                    w.launch_counter as nat + 1,
                    old(self).op_profile_dev_ptr,
                )
                &&& final(self).workers@ == old(self).workers@.update(
                    gpu as int,
                    Some(PerBatchWorker { launch_counter: r.seq, ..w }),
                )
            }),
            final(self).op_profile_dev_ptr == old(self).op_profile_dev_ptr,
    {
        let w: PerBatchWorker = self.worker(gpu);
        let mut words: Vec<u64> = Vec::new();
        let mut i: usize = 0;
        assert(instructions@.take(0).len() == 0);
        while i < instructions.len()
            invariant
                i <= instructions@.len(),
                words@ == flatten(instructions@.take(i as int)),
            decreases instructions@.len() - i,
        {
            assert(instructions@.take(i + 1).drop_last() =~= instructions@.take(i as int));
            extend_words(&mut words, &instructions[i].words);
            i += 1;
        }
        assert(instructions@.take(i as int) =~= instructions@);
        let seq: u32 = w.launch_counter + 1;
        self.workers.set(gpu, Some(PerBatchWorker { launch_counter: seq, ..w }));
        Launch {
            device: w.device,
            words,
            num_inst: instructions.len(),
            num_blocks: w.num_blocks,
            shared_mem: w.shared_mem,
            seq,
            op_profile: self.op_profile_dev_ptr,
        }
    }

    /// Cuts a list of any length into launches, each to be waited for before the
    /// next is issued.
    pub fn dispatch_batch_slice(&mut self, gpu: usize, instructions: &[Instruction]) -> (r: Vec<
        Launch,
    >)
        requires
            old(self).has(gpu as int),
            old(self).workers@[gpu as int]->0.launch_counter + batch_count(instructions@)
                <= u32::MAX,
        ensures
            r@.len() == batch_count(instructions@),
            forall|i: int|
                0 <= i < r@.len() ==> (#[trigger] r@[i]).is_launch(
                    old(self).workers@[gpu as int]->0,
                    batch(instructions@, i),
                    (old(self).workers@[gpu as int]->0.launch_counter + 1 + i) as nat,
                    old(self).op_profile_dev_ptr,
                ),
            final(self).workers@ == old(self).workers@.update(
                gpu as int,
                Some(
                    PerBatchWorker {
                        launch_counter: (old(self).workers@[gpu as int]->0.launch_counter
                            + batch_count(instructions@)) as u32,
                        ..old(self).workers@[gpu as int]->0
                    },
                ),
            ),
            final(self).op_profile_dev_ptr == old(self).op_profile_dev_ptr,
    {
        let ghost w = old(self).workers@[gpu as int]->0;
        let ghost insts = instructions@;
        let n: usize = instructions.len();
        let mut r: Vec<Launch> = Vec::new();
        let mut from: usize = 0;
        proof {
            arith::lemma_ceil_div(n as int, MAX_BATCH_INSTRUCTIONS as int);
            assert(self.workers@ =~= old(self).workers@.update(gpu as int, Some(w)));
        }
        while from < n
            invariant
                n == instructions@.len(),
                insts == instructions@,
                from <= n,
                from == r@.len() * MAX_BATCH_INSTRUCTIONS || (from == n && r@.len() == batch_count(
                    insts,
                )),
                r@.len() <= batch_count(insts),
                old(self).has(gpu as int),
                w == old(self).workers@[gpu as int]->0,
                w.launch_counter + batch_count(insts) <= u32::MAX,
                batch_count(insts) == n / MAX_BATCH_INSTRUCTIONS + if n % MAX_BATCH_INSTRUCTIONS
                    == 0 {
                    0int
                } else {
                    1int
                },
                forall|i: int|
                    0 <= i < r@.len() ==> (#[trigger] r@[i]).is_launch(
                        w,
                        batch(insts, i),
                        (w.launch_counter + 1 + i) as nat,
                        old(self).op_profile_dev_ptr,
                    ),
                self.workers@ == old(self).workers@.update(
                    gpu as int,
                    Some(
                        PerBatchWorker {
                            launch_counter: (w.launch_counter + r@.len()) as u32,
                            ..w
                        },
                    ),
                ),
                self.op_profile_dev_ptr == old(self).op_profile_dev_ptr,
            decreases n - from,
        {
            let to: usize = if n - from > MAX_BATCH_INSTRUCTIONS {
                from + MAX_BATCH_INSTRUCTIONS
            } else {
                n
            };
            assert(r@.len() < batch_count(insts));
            let piece: &[Instruction] = vstd::slice::slice_subrange(instructions, from, to);
            assert(piece@ == batch(insts, r@.len() as int));
            let one = self.dispatch_batch_fire(gpu, piece);
            r.push(one);
            proof {
                let last = r@.len() - 1;
                assert(r@[last].is_launch(
                    w,
                    batch(insts, last),
                    (w.launch_counter + 1 + last) as nat,
                    old(self).op_profile_dev_ptr,
                ));
            }
            from = to;
        }
        r
    }

    /// The waits that acknowledge `targets`.
    pub fn ack_order(&self, targets: &[AckTarget]) -> (r: Vec<AckTarget>)
        requires
            self.can_await(targets@),
        ensures
            r@ == wait_order(targets@, self.workers@.len()),
    {
        let n: usize = self.workers.len();
        let mut seen: Vec<bool> = Vec::new();
        let mut k: usize = 0;
        while k < n
            invariant
                k <= n,
                seen@.len() == k,
                forall|g: int| 0 <= g < k ==> !seen@[g],
            decreases n - k,
        {
            seen.push(false);
            k += 1;
        }
        let mut r: Vec<AckTarget> = Vec::new();
        let mut i: usize = 0;
        assert(targets@.take(0).len() == 0);
        while i < targets.len()
            invariant
                i <= targets@.len(),
                n == self.workers@.len(),
                seen@.len() == n,
                r@ == wait_order(targets@.take(i as int), n as nat),
                forall|g: int| 0 <= g < n ==> (#[trigger] seen@[g] <==> listed(r@, g as usize)),
            decreases targets@.len() - i,
        {
            assert(targets@.take(i + 1).drop_last() =~= targets@.take(i as int));
            let t = targets[i];
            if t.gpu < n && !seen[t.gpu] {
                let ghost before = r@;
                seen.set(t.gpu, true);
                r.push(t);
                proof {
                    assert(r@[before.len() as int].gpu == t.gpu);
                    assert forall|g: int| 0 <= g < n implies (#[trigger] seen@[g] <==> listed(
                        r@,
                        g as usize,
                    )) by {
                        if g != t.gpu {
                            if listed(before, g as usize) {
                                let j = choose|j: int|
                                    0 <= j < before.len() && (#[trigger] before[j]).gpu == g;
                                assert(r@[j].gpu == g);
                            }
                            if listed(r@, g as usize) {
                                let j = choose|j: int|
                                    0 <= j < r@.len() && (#[trigger] r@[j]).gpu == g;
                                assert(before[j].gpu == g);
                            }
                        }
                    }
                }
            }
            i += 1;
        }
        assert(targets@.take(i as int) =~= targets@);
        r
    }

    /// The outcome of waiting for `targets`: `synced[i]` says whether the `i`-th wait
    /// of `ack_order` succeeded. The first failure is reported.
    pub fn try_wait_acks_many(&self, targets: &[AckTarget], synced: &[bool]) -> (r: Result<
        (),
        DispatchError,
    >)
        requires
            self.can_await(targets@),
            synced@.len() >= wait_order(targets@, self.workers@.len()).len(),
        ensures
            ({
                let order = wait_order(targets@, self.workers@.len());
                &&& r is Ok <==> forall|i: int| 0 <= i < order.len() ==> #[trigger] synced@[i]
                &&& r is Err ==> exists|i: int|
                    0 <= i < order.len() && !(#[trigger] synced@[i]) && (forall|j: int|
                        0 <= j < i ==> #[trigger] synced@[j]) && r->Err_0 == (
                    DispatchError::Timeout {
                        gpu: order[i].gpu,
                        seq: order[i].seq,
                        ack: 0,
                        progress_pc: 0,
                        block_alive_count: 0,
                    })
            }),
    {
        let order: Vec<AckTarget> = self.ack_order(targets);
        let mut i: usize = 0;
        while i < order.len()
            invariant
                i <= order@.len(),
                order@ == wait_order(targets@, self.workers@.len()),
                synced@.len() >= order@.len(),
                forall|j: int| 0 <= j < i ==> #[trigger] synced@[j],
            decreases order@.len() - i,
        {
            if !synced[i] {
                assert(!synced@[i as int]);
                return Err(
                    DispatchError::Timeout {
                        gpu: order[i].gpu,
                        seq: order[i].seq,
                        ack: 0,
                        progress_pc: 0,
                        block_alive_count: 0,
                    },
                );
            }
            i += 1;
        }
        Ok(())
    }

    /// Whether `gpu` has a worker.
    pub fn has_worker(&self, gpu: usize) -> (r: bool)
        ensures
            r == self.has(gpu as int),
    {
        gpu < self.workers.len() && self.workers[gpu].is_some()
    }

    /// How many GPUs have a worker.
    pub fn num_gpus(&self) -> (r: usize)
        ensures
            r == armed_count(self.workers@),
    {
        let mut n: usize = 0;
        let mut i: usize = 0;
        assert(self.workers@.take(0).len() == 0);
        while i < self.workers.len()
            invariant
                i <= self.workers@.len(),
                n <= i,
                n == armed_count(self.workers@.take(i as int)),
            decreases self.workers@.len() - i,
        {
            assert(self.workers@.take(i + 1).drop_last() =~= self.workers@.take(i as int));
            if self.workers[i].is_some() {
                n += 1;
            }
            i += 1;
        }
        assert(self.workers@.take(i as int) =~= self.workers@);
        n
    }
}

/// Appends `more` to `words`.
fn extend_words(words: &mut Vec<u64>, more: &Vec<u64>)
    ensures
        final(words)@ == old(words)@ + more@,
{
    let mut k: usize = 0;
    assert(words@ =~= words@ + more@.take(0));
    while k < more.len()
        invariant
            k <= more@.len(),
            words@ == old(words)@ + more@.take(k as int),
        decreases more@.len() - k,
    {
        words.push(more[k]);
        assert(words@ =~= old(words)@ + more@.take(k + 1));
        k += 1;
    }
    assert(more@.take(k as int) =~= more@);
}

/// The first `count` batches, joined.
pub open spec fn joined(insts: Seq<Instruction>, count: nat) -> Seq<Instruction>
    decreases count,
{
    if count == 0 {
        Seq::empty()
    } else {
        joined(insts, (count - 1) as nat) + batch(insts, count - 1)
    }
}

proof fn lemma_joined(insts: Seq<Instruction>, count: nat)
    requires
        count <= batch_count(insts),
    ensures
        joined(insts, count) == insts.take(
            if count * MAX_BATCH_INSTRUCTIONS < insts.len() {
                count * MAX_BATCH_INSTRUCTIONS
            } else {
                insts.len() as int
            },
        ),
    decreases count,
{
    arith::lemma_ceil_div(insts.len() as int, MAX_BATCH_INSTRUCTIONS as int);
    if count > 0 {
        lemma_joined(insts, (count - 1) as nat);
        assert((count - 1) * MAX_BATCH_INSTRUCTIONS < insts.len());
        assert(joined(insts, count) =~= insts.take(
            if count * MAX_BATCH_INSTRUCTIONS < insts.len() {
                count * MAX_BATCH_INSTRUCTIONS
            } else {
                insts.len() as int
            },
        ));
    } else {
        assert(joined(insts, 0) =~= insts.take(0));
    }
}

/// Cutting a list into launches loses, repeats and reorders nothing, and no launch
/// is larger than allowed.
pub proof fn law_batches_partition(insts: Seq<Instruction>)
    ensures
        joined(insts, batch_count(insts)) == insts,
        forall|i: int|
            0 <= i < batch_count(insts) ==> 0 < (#[trigger] batch(insts, i)).len()
                <= MAX_BATCH_INSTRUCTIONS,
{
    arith::lemma_ceil_div(insts.len() as int, MAX_BATCH_INSTRUCTIONS as int);
    lemma_joined(insts, batch_count(insts));
    assert(insts.take(insts.len() as int) =~= insts);
}

/// Every known GPU that is named is waited for exactly once; no other is.
pub proof fn law_each_gpu_awaited_once(targets: Seq<AckTarget>, num_workers: nat)
    ensures
        ({
            let order = wait_order(targets, num_workers);
            &&& forall|i: int, j: int|
                0 <= i < j < order.len() ==> (#[trigger] order[i]).gpu != (
                #[trigger] order[j]).gpu
            &&& forall|i: int|
                0 <= i < order.len() ==> (#[trigger] order[i]).gpu < num_workers
                    && targets.contains(order[i])
            &&& forall|k: int|
                0 <= k < targets.len() && (#[trigger] targets[k]).gpu < num_workers ==> listed(
                    order,
                    targets[k].gpu,
                )
        }),
    decreases targets.len(),
{
    if targets.len() > 0 {
        let front = targets.drop_last();
        law_each_gpu_awaited_once(front, num_workers);
        let rest = wait_order(front, num_workers);
        let order = wait_order(targets, num_workers);
        let t = targets.last();
        assert(forall|i: int| 0 <= i < rest.len() ==> order[i] == rest[i]);
        assert forall|i: int, j: int| 0 <= i < j < order.len() implies (
        #[trigger] order[i]).gpu != (#[trigger] order[j]).gpu by {
            if j == rest.len() {
                assert(rest[i].gpu != t.gpu || listed(rest, t.gpu));
            }
        }
        assert forall|i: int| 0 <= i < order.len() implies (#[trigger] order[i]).gpu < num_workers
            && targets.contains(order[i]) by {
            if i < rest.len() {
                let k = choose|k: int| 0 <= k < front.len() && front[k] == rest[i];
                assert(targets[k] == order[i]);
            } else {
                assert(targets[targets.len() - 1] == order[i]);
            }
        }
        assert forall|k: int|
            0 <= k < targets.len() && (#[trigger] targets[k]).gpu < num_workers implies listed(
            order,
            targets[k].gpu,
        ) by {
            if k < front.len() {
                assert(front[k] == targets[k]);
                let i = choose|i: int|
                    0 <= i < rest.len() && (#[trigger] rest[i]).gpu == targets[k].gpu;
                assert(order[i].gpu == targets[k].gpu);
            } else if listed(rest, t.gpu) {
                let i = choose|i: int| 0 <= i < rest.len() && (#[trigger] rest[i]).gpu == t.gpu;
                assert(order[i].gpu == t.gpu);
            } else {
                assert(order[rest.len() as int].gpu == t.gpu);
            }
        }
    }
}

/// Words are uploaded in order: a list's words are those of its parts, one after the other,
/// and an instruction's are its own.
pub proof fn law_words_in_order(first: Seq<Instruction>, second: Seq<Instruction>, one: Instruction)
    ensures
        flatten(first + second) == flatten(first) + flatten(second),
        flatten(seq![one]) == one@,
    decreases second.len(),
{
    reveal_with_fuel(flatten, 2);
    assert(seq![one].drop_last() =~= Seq::empty());
    assert(Seq::<u64>::empty() + one@ =~= one@);
    if second.len() == 0 {
        assert(first + second =~= first);
        assert(flatten(first) + flatten(second) =~= flatten(first));
    } else {
        law_words_in_order(first, second.drop_last(), one);
        assert((first + second).drop_last() =~= first + second.drop_last());
        assert(flatten(first) + flatten(second.drop_last()) + second.last()@ =~= flatten(first)
            + flatten(second));
    }
}

/// A worker fills every compute unit, once at least.
pub proof fn law_units_filled(blocks_per_sm: i32, num_cus: u32)
    ensures
        launch_blocks(blocks_per_sm, num_cus) >= num_cus,
        blocks_per_sm >= 1 ==> launch_blocks(blocks_per_sm, num_cus) == blocks_per_sm * num_cus,
        blocks_per_sm < 1 ==> launch_blocks(blocks_per_sm, num_cus) == num_cus,
{
    assert(1 * num_cus as int == num_cus) by (nonlinear_arith);
    if blocks_per_sm >= 1 {
        arith::lemma_mul_mono(1, blocks_per_sm as int, num_cus as int);
    }
}

/// Arming a GPU disturbs no other.
pub proof fn law_arming_keeps_others(
    workers: Seq<Option<PerBatchWorker>>,
    w: PerBatchWorker,
    g: int,
)
    requires
        0 <= g < armed(workers, w).len(),
    ensures
        w.device.0 < armed(workers, w).len(),
        workers.len() <= armed(workers, w).len(),
        armed(workers, w)[g] == if g == w.device.0 {
            Some(w)
        } else if g < workers.len() {
            workers[g]
        } else {
            None
        },
{
}

} // verus!
