//! Warming up the workers of a multi-GPU model: each takes one launch before the
//! first prompt.

use vstd::prelude::*;
use crate::model::instance::Model;
use crate::per_batch_dispatch::{
    Instruction, Launch, PerBatchDispatch, PerBatchWorker, MAX_BATCH_INSTRUCTIONS,
};

verus! {

/// What a worker's destination holds before its copy.
pub const WARMUP_SENTINEL: u32 = 0xDEADBEEF;

/// Why a warm-up cannot run.
#[derive(Clone, Copy, Debug, PartialEq, Eq, Structural)]
pub enum WarmupError {
    /// There is one GPU only; a full decode warms it up instead.
    SingleGpu,
    /// No worker came up.
    NoLiveWorkers,
}

impl WarmupError {
    /// The text a caller is shown.
    pub open spec fn text(self) -> Seq<char> {
        match self {
            WarmupError::SingleGpu => "single-gpu-fallback"@,
            WarmupError::NoLiveWorkers => "no live workers after spawn"@,
        }
    }

    pub fn message(self) -> (r: String)
        ensures
            r@ == self.text(),
    {
        match self {
            WarmupError::SingleGpu => "single-gpu-fallback".to_owned(),
            WarmupError::NoLiveWorkers => "no live workers after spawn".to_owned(),
        }
    }
}

/// One worker's warm-up launch.
pub struct WarmupLaunch {
    pub gpu: usize,
    pub launch: Launch,
}

/// The GPUs among the first `n` that have a worker, in order.
pub open spec fn live_before(workers: Seq<Option<PerBatchWorker>>, n: int) -> Seq<usize>
    decreases n,
{
    if n <= 0 {
        Seq::empty()
    } else if workers[n - 1] is Some {
        live_before(workers, n - 1).push((n - 1) as usize)
    } else {
        live_before(workers, n - 1)
    }
}

/// All GPUs that have a worker, in order.
pub open spec fn live(workers: Seq<Option<PerBatchWorker>>) -> Seq<usize> {
    live_before(workers, workers.len() as int)
}

/// Worker `w` after one more launch.
pub open spec fn launched_once(w: Option<PerBatchWorker>) -> Option<PerBatchWorker> {
    match w {
        Some(p) => Some(PerBatchWorker { launch_counter: (p.launch_counter + 1) as u32, ..p }),
        None => None,
    }
}

/// `before` after every worker took `insts` as its next launch, in the order of the
/// GPUs.
pub open spec fn all_fired(
    before: &PerBatchDispatch,
    after: &PerBatchDispatch,
    insts: Seq<Instruction>,
    launches: Seq<WarmupLaunch>,
) -> bool {
    let gpus = live(before.workers@);
    &&& launches.len() == gpus.len()
    &&& forall|i: int|
        0 <= i < gpus.len() ==> {
            let w = before.workers@[gpus[i] as int]->0;
            &&& (#[trigger] launches[i]).gpu == gpus[i]
            &&& launches[i].launch.is_launch(
                w,
                insts,
                w.launch_counter as nat + 1,
                before.op_profile_dev_ptr,
            )
        }
    &&& after.workers@ == Seq::new(
        before.workers@.len(),
        |g: int| launched_once(before.workers@[g]),
    )
    &&& after.op_profile_dev_ptr == before.op_profile_dev_ptr
}

/// Hands `insts` to every worker as its next launch.
fn fire_all(dispatch: &mut PerBatchDispatch, insts: &[Instruction]) -> (r: Vec<WarmupLaunch>)
    requires
        insts@.len() <= MAX_BATCH_INSTRUCTIONS,
        forall|g: int|
            0 <= g < old(dispatch).workers@.len() ==> ((#[trigger] old(dispatch).workers@[g])
                matches Some(w) ==> w.launch_counter < u32::MAX),
    ensures
        all_fired(old(dispatch), final(dispatch), insts@, r@),
{
    let ghost workers = dispatch.workers@;
    let n: usize = dispatch.workers.len();
    let mut r: Vec<WarmupLaunch> = Vec::new();
    let mut g: usize = 0;
    while g < n
        invariant
            g <= n,
            n == workers.len(),
            workers == old(dispatch).workers@,
            insts@.len() <= MAX_BATCH_INSTRUCTIONS,
            forall|k: int|
                0 <= k < workers.len() ==> ((#[trigger] workers[k]) matches Some(w)
                    ==> w.launch_counter < u32::MAX),
            dispatch.workers@.len() == n,
            forall|k: int| 0 <= k < g ==> #[trigger] dispatch.workers@[k] == launched_once(workers[k]),
            forall|k: int| g <= k < n ==> #[trigger] dispatch.workers@[k] == workers[k],
            dispatch.op_profile_dev_ptr == old(dispatch).op_profile_dev_ptr,
            r@.len() == live_before(workers, g as int).len(),
            forall|i: int|
                0 <= i < r@.len() ==> {
                    let at = live_before(workers, g as int)[i];
                    let w = workers[at as int]->0;
                    &&& (#[trigger] r@[i]).gpu == at
                    &&& r@[i].launch.is_launch(
                        w,
                        insts@,
                        w.launch_counter as nat + 1,
                        old(dispatch).op_profile_dev_ptr,
                    )
                },
        decreases n - g,
    {
        assert(dispatch.workers@[g as int] == workers[g as int]);
        if dispatch.has_worker(g) {
            let launch = dispatch.dispatch_batch_fire(g, insts);
            r.push(WarmupLaunch { gpu: g, launch });
        }
        g += 1;
    }
    assert(dispatch.workers@ =~= Seq::new(n as nat, |k: int| launched_once(workers[k])));
    r
}

/// Whether some worker is up.
fn any_live(dispatch: &PerBatchDispatch) -> (r: bool)
    ensures
        r == (live(dispatch.workers@).len() > 0),
{
    let mut g: usize = 0;
    while g < dispatch.workers.len()
        invariant
            g <= dispatch.workers@.len(),
            live_before(dispatch.workers@, g as int).len() == 0,
        decreases dispatch.workers@.len() - g,
    {
        if dispatch.has_worker(g) {
            proof {
                lemma_live_grows(dispatch.workers@, g + 1, dispatch.workers@.len() as int);
            }
            return true;
        }
        g += 1;
    }
    false
}

proof fn lemma_live_grows(workers: Seq<Option<PerBatchWorker>>, m: int, n: int)
    requires
        m <= n,
    ensures
        live_before(workers, m).len() <= live_before(workers, n).len(),
    decreases n - m,
{
    if m < n {
        lemma_live_grows(workers, m, n - 1);
    }
}

impl Model {
    /// What a warm-up with `insts` answers and leaves behind.
    pub open spec fn warmed_up(
        &self,
        before: &PerBatchDispatch,
        after: &PerBatchDispatch,
        insts: Seq<Instruction>,
        r: Result<Vec<WarmupLaunch>, WarmupError>,
    ) -> bool {
        let refusal = if self.multi_gpu is None {
            Some(WarmupError::SingleGpu)
        } else if live(before.workers@).len() == 0 {
            Some(WarmupError::NoLiveWorkers)
        } else {
            None
        };
        match refusal {
            Some(e) => r is Err && r->Err_0 == e && *after == *before,
            None => r is Ok && all_fired(before, after, insts, r->Ok_0@),
        }
    }

    fn warm_up(&self, dispatch: &mut PerBatchDispatch, insts: &[Instruction]) -> (r: Result<
        Vec<WarmupLaunch>,
        WarmupError,
    >)
        requires
            insts@.len() <= MAX_BATCH_INSTRUCTIONS,
            forall|g: int|
                0 <= g < old(dispatch).workers@.len() ==> ((#[trigger] old(dispatch).workers@[g])
                    matches Some(w) ==> w.launch_counter < u32::MAX),
        ensures
            self.warmed_up(old(dispatch), final(dispatch), insts@, r),
    {
        if self.multi_gpu.is_none() {
            return Err(WarmupError::SingleGpu);
        }
        if !any_live(dispatch) {
            return Err(WarmupError::NoLiveWorkers);
        }
        Ok(fire_all(dispatch, insts))
    }

    /// Every worker copies a known pattern: `copy` is that one instruction.
    pub fn minimal_mailbox_warmup_no_prefill(
        &self,
        dispatch: &mut PerBatchDispatch,
        copy: &[Instruction],
    ) -> (r: Result<Vec<WarmupLaunch>, WarmupError>)
        requires
            copy@.len() == 1,
            forall|g: int|
                0 <= g < old(dispatch).workers@.len() ==> ((#[trigger] old(dispatch).workers@[g])
                    matches Some(w) ==> w.launch_counter < u32::MAX),
        ensures
            self.warmed_up(old(dispatch), final(dispatch), copy@, r),
    {
        self.warm_up(dispatch, copy)
    }

    /// Every worker takes a launch without instructions.
    pub fn minimal_mailbox_warmup_empty_packet(&self, dispatch: &mut PerBatchDispatch) -> (r:
        Result<Vec<WarmupLaunch>, WarmupError>)
        requires
            forall|g: int|
                0 <= g < old(dispatch).workers@.len() ==> ((#[trigger] old(dispatch).workers@[g])
                    matches Some(w) ==> w.launch_counter < u32::MAX),
        ensures
            self.warmed_up(old(dispatch), final(dispatch), Seq::empty(), r),
    {
        let none: Vec<Instruction> = Vec::new();
        assert(none@ =~= Seq::empty());
        self.warm_up(dispatch, none.as_slice())
    }
}

/// Element `i` of the pattern that a warm-up copies, in single precision: 1, 2, 3, 4.
pub open spec fn warmup_pattern(i: int) -> u32 {
    if i == 0 {
        0x3F800000
    } else if i == 1 {
        0x40000000
    } else if i == 2 {
        0x40400000
    } else {
        0x40800000
    }
}

/// Whether a worker's destination holds the pattern.
pub fn pattern_arrived(got: &[u32; 4]) -> (r: bool)
    ensures
        r == forall|i: int| 0 <= i < 4 ==> #[trigger] got@[i] == warmup_pattern(i),
{
    let r = got[0] == 0x3F800000 && got[1] == 0x40000000 && got[2] == 0x40400000 && got[3]
        == 0x40800000;
    proof {
        if r {
            assert forall|i: int| 0 <= i < 4 implies #[trigger] got@[i] == warmup_pattern(i) by {
                assert(i == 0 || i == 1 || i == 2 || i == 3);
            }
        } else {
            assert(got@[0] != warmup_pattern(0) || got@[1] != warmup_pattern(1) || got@[2]
                != warmup_pattern(2) || got@[3] != warmup_pattern(3));
        }
    }
    r
}

/// Exactly the GPUs that have a worker are warmed up, in order and each once.
pub proof fn law_live_in_order(workers: Seq<Option<PerBatchWorker>>, n: int)
    requires
        0 <= n <= workers.len(),
        n <= usize::MAX,
    ensures
        ({
            let gpus = live_before(workers, n);
            &&& forall|g: usize| #[trigger]
                gpus.contains(g) <==> g < n && workers[g as int] is Some
            &&& forall|i: int, j: int|
                0 <= i < j < gpus.len() ==> #[trigger] gpus[i] < #[trigger] gpus[j]
        }),
    decreases n,
{
    if n > 0 {
        law_live_in_order(workers, n - 1);
        let rest = live_before(workers, n - 1);
        let gpus = live_before(workers, n);
        assert forall|g: usize| #[trigger] gpus.contains(g) <==> g < n && workers[g as int] is Some by {
            if gpus.contains(g) {
                let k = gpus.index_of(g);
                if k < rest.len() {
                    assert(rest[k] == g);
                    assert(rest.contains(g));
                }
            }
            if g < n && workers[g as int] is Some {
                if g < n - 1 {
                    assert(rest.contains(g));
                    assert(gpus[rest.index_of(g)] == g);
                } else {
                    assert(gpus[rest.len() as int] == g);
                }
            }
        }
        assert forall|i: int, j: int| 0 <= i < j < gpus.len() implies #[trigger] gpus[i]
            < #[trigger] gpus[j] by {
            assert(rest.contains(rest[i]));
            if j < rest.len() {
                assert(rest[i] < rest[j]);
            }
        }
    }
}

} // verus!
