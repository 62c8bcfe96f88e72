//! How a compiled decode program is cut into segments when other GPUs take part:
//! GPU 0 runs up to an expert or attention boundary, the others do their share, and
//! GPU 0 goes on.

use vstd::prelude::*;

verus! {

/// Ends a program; never sent to a worker that must keep running.
pub const OP_HALT: u32 = 0;

/// Expert dispatch at an instruction.
#[derive(Clone, Copy, Debug, PartialEq, Eq, Structural)]
pub struct MoeBoundary {
    pub index: usize,
    pub layer: usize,
}

/// Attention that all GPUs share: GPU 0 runs through `flush` and goes on at
/// `resume` (or right after it, when `resume` is the attention instruction itself).
#[derive(Clone, Copy, Debug, PartialEq, Eq, Structural)]
pub struct AttnBoundary {
    pub flush: usize,
    pub resume: usize,
}

/// What the segmentation reads of a program.
pub struct P2pProgram {
    pub opcodes: Vec<u32>,
    pub moe: Vec<MoeBoundary>,
    pub attn: Vec<AttnBoundary>,
    /// Whether attention is shared between GPUs.
    pub head_parallel: bool,
    /// Whether the GPUs project Q, K and V themselves.
    pub distributed_qkv: bool,
}

/// A stretch `from..to` of GPU 0's program and what follows it. `gather` names the
/// attention boundary whose results are collected before the stretch runs.
#[derive(Clone, Copy, Debug, PartialEq, Eq, Structural)]
pub enum Segment {
    /// Fired without waiting; the workers run their experts of `layer` meanwhile.
    Moe { from: usize, to: usize, layer: usize, gather: Option<usize> },
    /// Awaited; then all GPUs run attention number `attn`.
    Attention { from: usize, to: usize, attn: usize, gather: Option<usize> },
    /// The rest of the program.
    Tail { from: usize, to: usize, gather: Option<usize> },
}

impl Segment {
    pub open spec fn from_index(self) -> int {
        match self {
            Segment::Moe { from, .. } => from as int,
            Segment::Attention { from, .. } => from as int,
            Segment::Tail { from, .. } => from as int,
        }
    }

    pub open spec fn to_index(self) -> int {
        match self {
            Segment::Moe { to, .. } => to as int,
            Segment::Attention { to, .. } => to as int,
            Segment::Tail { to, .. } => to as int,
        }
    }
}

impl P2pProgram {
    pub open spec fn len(&self) -> nat {
        self.opcodes@.len()
    }

    /// Where GPU 0 goes on after attention boundary `a`.
    pub open spec fn resume_at(&self, a: int) -> int {
        if self.distributed_qkv {
            self.attn@[a].resume as int
        } else {
            self.attn@[a].resume + 1
        }
    }

    /// GPU 0 never resumes past the end of its program.
    pub open spec fn valid(&self) -> bool {
        self.head_parallel ==> forall|a: int|
            0 <= a < self.attn@.len() ==> #[trigger] self.resume_at(a) <= self.len()
    }

    /// Whether the program ends before instruction `i`.
    pub open spec fn ends_at(&self, i: int) -> bool {
        i >= self.len() || self.opcodes@[i] == OP_HALT
    }

    /// The segments from instruction `i` on, when the stretch that is open started
    /// at `from` and the next boundaries are `moe_i` and `attn_i`.
    pub open spec fn segments_from(
        &self,
        i: int,
        from: int,
        moe_i: int,
        attn_i: int,
        gather: Option<usize>,
    ) -> Seq<Segment>
        decreases self.attn@.len() - attn_i, self.len() - i,
    {
        if attn_i < 0 || attn_i > self.attn@.len() || self.ends_at(i) {
            if from < i || gather is Some {
                seq![Segment::Tail { from: from as usize, to: i as usize, gather }]
            } else {
                Seq::empty()
            }
        } else if 0 <= moe_i < self.moe@.len() && self.moe@[moe_i].index == i {
            seq![
                Segment::Moe {
                    from: from as usize,
                    to: (i + 1) as usize,
                    layer: self.moe@[moe_i].layer,
                    gather,
                },
            ] + self.segments_from(i + 1, i + 1, moe_i + 1, attn_i, None)
        } else if self.head_parallel && attn_i < self.attn@.len() && self.attn@[attn_i].flush == i {
            seq![
                Segment::Attention {
                    from: from as usize,
                    to: (i + 1) as usize,
                    attn: attn_i as usize,
                    gather,
                },
            ] + self.segments_from(
                self.resume_at(attn_i),
                self.resume_at(attn_i),
                moe_i,
                attn_i + 1,
                Some(attn_i as usize),
            )
        } else {
            self.segments_from(i + 1, from, moe_i, attn_i, gather)
        }
    }

    /// All segments of the program.
    pub open spec fn segments(&self) -> Seq<Segment> {
        self.segments_from(0, 0, 0, 0, None)
    }

    /// First instruction at or after `i` that ends the program.
    pub open spec fn end_from(&self, i: int) -> int
        decreases self.len() - i,
    {
        if self.ends_at(i) {
            i
        } else {
            self.end_from(i + 1)
        }
    }

    /// Where GPU 0 goes on after a segment.
    pub open spec fn goes_on_at(&self, seg: Segment) -> int {
        match seg {
            Segment::Attention { attn, .. } => self.resume_at(attn as int),
            _ => seg.to_index(),
        }
    }

    /// Segment `s` is a stretch of the program, ends after its boundary where that is
    /// attention, and the next segment starts where GPU 0 goes on.
    pub open spec fn link(&self, segs: Seq<Segment>, s: int) -> bool {
        &&& segs[s].from_index() <= segs[s].to_index()
        &&& segs[s] matches Segment::Attention { attn, .. } ==> attn < self.attn@.len()
            && segs[s].to_index() == self.attn@[attn as int].flush + 1
        &&& s + 1 < segs.len() ==> segs[s + 1].from_index() == self.goes_on_at(segs[s])
    }

    /// Each segment starts where GPU 0 goes on after the one before.
    pub open spec fn chained(&self, segs: Seq<Segment>) -> bool {
        forall|s: int| #![trigger segs[s]] 0 <= s < segs.len() ==> self.link(segs, s)
    }

    /// Every attention boundary that is reached resumes after its flush.
    pub open spec fn resumes_forward(&self, segs: Seq<Segment>) -> bool {
        forall|s: int|
            #![trigger segs[s]]
            0 <= s < segs.len() ==> segs[s].to_index() <= self.goes_on_at(segs[s])
    }

    /// Where the last of the segments stops, `from` if there are none.
    pub open spec fn stop(segs: Seq<Segment>, from: int) -> int {
        if segs.len() == 0 {
            from
        } else {
            segs.last().to_index()
        }
    }

    /// Whether a segment holds instruction `k`.
    pub open spec fn within(seg: Segment, k: int) -> bool {
        seg.from_index() <= k < seg.to_index()
    }

    /// Whether instruction `k` lies between the flush that ends a segment and its
    /// resume: the shared attention takes its place.
    pub open spec fn passes_over(&self, seg: Segment, k: int) -> bool {
        seg.to_index() <= k < self.goes_on_at(seg)
    }

    /// Whether one of the segments holds instruction `k`.
    pub open spec fn runs(segs: Seq<Segment>, k: int) -> bool {
        exists|s: int| 0 <= s < segs.len() && Self::within(#[trigger] segs[s], k)
    }

    /// Whether one of the segments passes over instruction `k`.
    pub open spec fn skips(&self, segs: Seq<Segment>, k: int) -> bool {
        exists|s: int| 0 <= s < segs.len() && self.passes_over(#[trigger] segs[s], k)
    }

    /// Cuts the program into segments.
    pub fn plan_segments(&self) -> (r: Vec<Segment>)
        requires
            self.valid(),
        ensures
            r@ == self.segments(),
    {
        let n: usize = self.opcodes.len();
        let mut r: Vec<Segment> = Vec::new();
        let mut attn_i: usize = 0;
        let mut moe_i: usize = 0;
        let mut i: usize = 0;
        let mut from: usize = 0;
        let mut gather: Option<usize> = None;
        assert(r@ + self.segments() =~= self.segments());
        while i < n && self.opcodes[i] != OP_HALT
            invariant
                self.valid(),
                n == self.len(),
                from <= i <= n,
                attn_i <= self.attn@.len(),
                moe_i <= self.moe@.len(),
                r@ + self.segments_from(
                    i as int,
                    from as int,
                    moe_i as int,
                    attn_i as int,
                    gather,
                ) == self.segments(),
            decreases self.attn@.len() - attn_i, n - i,
        {
            let ghost done = r@;
            if moe_i < self.moe.len() && self.moe[moe_i].index == i {
                r.push(
                    Segment::Moe { from, to: i + 1, layer: self.moe[moe_i].layer, gather },
                );
                proof {
                    assert(r@ + self.segments_from(
                        i + 1,
                        i + 1,
                        moe_i + 1,
                        attn_i as int,
                        None,
                    ) =~= done + self.segments_from(
                        i as int,
                        from as int,
                        moe_i as int,
                        attn_i as int,
                        gather,
                    ));
                }
                from = i + 1;
                moe_i += 1;
                i = from;
                gather = None;
            } else if self.head_parallel && attn_i < self.attn.len() && self.attn[attn_i].flush
                == i {
                r.push(Segment::Attention { from, to: i + 1, attn: attn_i, gather });
                assert(self.resume_at(attn_i as int) <= self.len());
                let next: usize = if self.distributed_qkv {
                    self.attn[attn_i].resume
                } else {
                    self.attn[attn_i].resume + 1
                };
                proof {
                    assert(r@ + self.segments_from(
                        next as int,
                        next as int,
                        moe_i as int,
                        attn_i + 1,
                        Some(attn_i),
                    ) =~= done + self.segments_from(
                        i as int,
                        from as int,
                        moe_i as int,
                        attn_i as int,
                        gather,
                    ));
                }
                gather = Some(attn_i);
                attn_i += 1;
                i = next;
                from = i;
            } else {
                i += 1;
            }
        }
        assert(self.ends_at(i as int));
        let ghost done = r@;
        if from < i || gather.is_some() {
            r.push(Segment::Tail { from, to: i, gather });
        }
        proof {
            assert(r@ =~= done + self.segments_from(
                i as int,
                from as int,
                moe_i as int,
                attn_i as int,
                gather,
            ));
        }
        r
    }

    proof fn lemma_halt_never_sent(
        &self,
        i: int,
        from: int,
        moe_i: int,
        attn_i: int,
        gather: Option<usize>,
    )
        requires
            self.valid(),
            self.len() <= usize::MAX,
            0 <= from <= i <= self.len(),
            0 <= moe_i,
            0 <= attn_i <= self.attn@.len(),
            forall|k: int| from <= k < i ==> (#[trigger] self.opcodes@[k]) != OP_HALT,
        ensures
            forall|s: int|
                #![trigger self.segments_from(i, from, moe_i, attn_i, gather)[s]]
                0 <= s < self.segments_from(i, from, moe_i, attn_i, gather).len() ==> {
                    let seg = self.segments_from(i, from, moe_i, attn_i, gather)[s];
                    &&& 0 <= seg.from_index() <= seg.to_index() <= self.len()
                    &&& forall|k: int|
                        seg.from_index() <= k < seg.to_index() ==> (#[trigger] self.opcodes@[k])
                            != OP_HALT
                },
        decreases self.attn@.len() - attn_i, self.len() - i,
    {
        let all = self.segments_from(i, from, moe_i, attn_i, gather);
        if self.ends_at(i) {
        } else if 0 <= moe_i < self.moe@.len() && self.moe@[moe_i].index == i {
            self.lemma_halt_never_sent(i + 1, i + 1, moe_i + 1, attn_i, None);
            let rest = self.segments_from(i + 1, i + 1, moe_i + 1, attn_i, None);
            assert forall|s: int| #![trigger all[s]] 0 <= s < all.len() implies ({
                &&& 0 <= all[s].from_index() <= all[s].to_index() <= self.len()
                &&& forall|k: int|
                    all[s].from_index() <= k < all[s].to_index() ==> (
                    #[trigger] self.opcodes@[k]) != OP_HALT
            }) by {
                if s > 0 {
                    assert(all[s] == rest[s - 1]);
                }
            }
        } else if self.head_parallel && attn_i < self.attn@.len() && self.attn@[attn_i].flush == i {
            let next = self.resume_at(attn_i);
            self.lemma_halt_never_sent(next, next, moe_i, attn_i + 1, Some(attn_i as usize));
            let rest = self.segments_from(next, next, moe_i, attn_i + 1, Some(attn_i as usize));
            assert forall|s: int| #![trigger all[s]] 0 <= s < all.len() implies ({
                &&& 0 <= all[s].from_index() <= all[s].to_index() <= self.len()
                &&& forall|k: int|
                    all[s].from_index() <= k < all[s].to_index() ==> (
                    #[trigger] self.opcodes@[k]) != OP_HALT
            }) by {
                if s > 0 {
                    assert(all[s] == rest[s - 1]);
                }
            }
        } else {
            self.lemma_halt_never_sent(i + 1, from, moe_i, attn_i, gather);
        }
    }

    proof fn lemma_segments_chain(
        &self,
        i: int,
        from: int,
        moe_i: int,
        attn_i: int,
        gather: Option<usize>,
    )
        requires
            self.valid(),
            self.len() <= usize::MAX,
            0 <= from <= i <= self.len(),
            0 <= moe_i,
            0 <= attn_i <= self.attn@.len(),
        ensures
            ({
                let all = self.segments_from(i, from, moe_i, attn_i, gather);
                &&& all.len() == 0 ==> from == i && gather is None && self.ends_at(i)
                &&& all.len() > 0 ==> all[0].from_index() == from
                &&& all.len() > 0 ==> all.last() !is Attention && self.ends_at(
                    all.last().to_index(),
                )
                &&& self.chained(all)
                &&& !self.head_parallel ==> Self::stop(all, from) == self.end_from(i)
            }),
        decreases self.attn@.len() - attn_i, self.len() - i,
    {
        let all = self.segments_from(i, from, moe_i, attn_i, gather);
        assert(self.attn@.len() == self.attn.len());
        if self.ends_at(i) {
        } else if 0 <= moe_i < self.moe@.len() && self.moe@[moe_i].index == i {
            self.lemma_segments_chain(i + 1, i + 1, moe_i + 1, attn_i, None);
            let rest = self.segments_from(i + 1, i + 1, moe_i + 1, attn_i, None);
            self.lemma_chain_grows(all, rest);
        } else if self.head_parallel && attn_i < self.attn@.len() && self.attn@[attn_i].flush == i {
            let next = self.resume_at(attn_i);
            self.lemma_segments_chain(next, next, moe_i, attn_i + 1, Some(attn_i as usize));
            let rest = self.segments_from(next, next, moe_i, attn_i + 1, Some(attn_i as usize));
            self.lemma_chain_grows(all, rest);
        } else {
            self.lemma_segments_chain(i + 1, from, moe_i, attn_i, gather);
        }
    }

    proof fn lemma_chain_grows(&self, all: Seq<Segment>, rest: Seq<Segment>)
        requires
            all.len() > 0,
            all == seq![all[0]] + rest,
            self.chained(rest),
            all[0].from_index() <= all[0].to_index(),
            all[0] matches Segment::Attention { attn, .. } ==> attn < self.attn@.len()
                && all[0].to_index() == self.attn@[attn as int].flush + 1,
            rest.len() > 0 ==> rest[0].from_index() == self.goes_on_at(all[0]),
        ensures
            self.chained(all),
            rest.len() > 0 ==> all.last() == rest.last(),
    {
        assert forall|s: int| #![trigger all[s]] 0 <= s < all.len() implies self.link(all, s) by {
            if s > 0 {
                assert(all[s] == rest[s - 1]);
                assert(self.link(rest, s - 1));
            }
            if s + 1 < all.len() {
                assert(all[s + 1] == rest[s]);
            }
        }
    }

    proof fn lemma_chain_rises(&self, all: Seq<Segment>, s: int, t: int)
        requires
            self.chained(all),
            self.resumes_forward(all),
            0 <= s < t < all.len(),
        ensures
            self.goes_on_at(all[s]) <= all[t].from_index(),
        decreases t - s,
    {
        assert(self.link(all, s));
        if s + 1 < t {
            self.lemma_chain_rises(all, s + 1, t);
            assert(self.link(all, s + 1));
        }
    }

    proof fn lemma_chain_reaches(&self, all: Seq<Segment>, n: int, k: int)
        requires
            self.chained(all),
            0 < n <= all.len(),
            all[0].from_index() <= k < all[n - 1].to_index(),
        ensures
            Self::runs(all, k) || self.skips(all, k),
        decreases n,
    {
        if n == 1 {
            assert(Self::within(all[0], k));
        } else {
            assert(self.link(all, n - 2));
            if k < all[n - 2].to_index() {
                self.lemma_chain_reaches(all, n - 1, k);
            } else if k < all[n - 1].from_index() {
                assert(self.passes_over(all[n - 2], k));
            } else {
                assert(Self::within(all[n - 1], k));
            }
        }
    }

    /// The expert boundaries a segment list serves, in order.
    pub open spec fn moe_layers(segs: Seq<Segment>) -> Seq<MoeBoundary>
        decreases segs.len(),
    {
        if segs.len() == 0 {
            Seq::empty()
        } else {
            let rest = Self::moe_layers(segs.drop_first());
            match segs[0] {
                Segment::Moe { to, layer, .. } => seq![
                    MoeBoundary { index: (to - 1) as usize, layer },
                ] + rest,
                _ => rest,
            }
        }
    }

    proof fn lemma_moe_in_order(
        &self,
        i: int,
        from: int,
        moe_i: int,
        attn_i: int,
        gather: Option<usize>,
    )
        requires
            self.valid(),
            self.len() <= usize::MAX,
            0 <= from <= i <= self.len(),
            0 <= moe_i <= self.moe@.len(),
            0 <= attn_i <= self.attn@.len(),
        ensures
            ({
                let served = Self::moe_layers(self.segments_from(i, from, moe_i, attn_i, gather));
                &&& moe_i + served.len() <= self.moe@.len()
                &&& served == self.moe@.subrange(moe_i, moe_i + served.len())
            }),
        decreases self.attn@.len() - attn_i, self.len() - i,
    {
        let all = self.segments_from(i, from, moe_i, attn_i, gather);
        if self.ends_at(i) {
            reveal_with_fuel(P2pProgram::moe_layers, 2);
            if all.len() > 0 {
                assert(all.drop_first() =~= Seq::empty());
            }
            assert(Self::moe_layers(all) =~= self.moe@.subrange(moe_i, moe_i));
        } else if 0 <= moe_i < self.moe@.len() && self.moe@[moe_i].index == i {
            self.lemma_moe_in_order(i + 1, i + 1, moe_i + 1, attn_i, None);
            let rest = self.segments_from(i + 1, i + 1, moe_i + 1, attn_i, None);
            assert(all.drop_first() =~= rest);
            let served = Self::moe_layers(all);
            assert(served =~= self.moe@.subrange(moe_i, moe_i + served.len()));
        } else if self.head_parallel && attn_i < self.attn@.len() && self.attn@[attn_i].flush == i {
            let next = self.resume_at(attn_i);
            assert(next <= self.len());
            self.lemma_moe_in_order(next, next, moe_i, attn_i + 1, Some(attn_i as usize));
            let rest = self.segments_from(next, next, moe_i, attn_i + 1, Some(attn_i as usize));
            assert(all.drop_first() =~= rest);
        } else {
            self.lemma_moe_in_order(i + 1, from, moe_i, attn_i, gather);
        }
    }

    /// No segment contains an instruction that would end the worker's program, and
    /// every segment lies inside the program.
    pub proof fn law_halt_never_sent(&self, s: int, k: int)
        requires
            self.valid(),
            self.len() <= usize::MAX,
            0 <= s < self.segments().len(),
            self.segments()[s].from_index() <= k < self.segments()[s].to_index(),
        ensures
            0 <= k < self.len(),
            self.opcodes@[k] != OP_HALT,
    {
        self.lemma_halt_never_sent(0, 0, 0, 0, None);
        let seg = self.segments_from(0, 0, 0, 0, None)[s];
        assert(0 <= seg.from_index() <= seg.to_index() <= self.len());
    }

    /// The first segment starts at the beginning of the program, each starts where GPU
    /// 0 goes on after the one before, and the last stops where the program ends.
    /// Without shared attention GPU 0 goes on where a segment stopped, so the segments
    /// run every instruction up to the end exactly once, in order.
    pub proof fn law_segments_cover_program(&self)
        requires
            self.valid(),
            self.len() <= usize::MAX,
        ensures
            ({
                let all = self.segments();
                &&& all.len() > 0 ==> all[0].from_index() == 0
                &&& self.chained(all)
                &&& self.ends_at(Self::stop(all, 0))
                &&& !self.head_parallel ==> Self::stop(all, 0) == self.end_from(0)
                &&& !self.head_parallel ==> forall|s: int|
                    #![trigger all[s]]
                    0 <= s < all.len() ==> self.goes_on_at(all[s]) == all[s].to_index()
            }),
    {
        self.lemma_segments_chain(0, 0, 0, 0, None);
        if !self.head_parallel {
            self.lemma_no_attention(0, 0, 0, 0, None);
        }
    }

    proof fn lemma_no_attention(
        &self,
        i: int,
        from: int,
        moe_i: int,
        attn_i: int,
        gather: Option<usize>,
    )
        requires
            !self.head_parallel,
        ensures
            ({
                let all = self.segments_from(i, from, moe_i, attn_i, gather);
                forall|s: int|
                    #![trigger all[s]]
                    0 <= s < all.len() ==> all[s] !is Attention
            }),
        decreases self.len() - i,
    {
        let all = self.segments_from(i, from, moe_i, attn_i, gather);
        if attn_i < 0 || attn_i > self.attn@.len() || self.ends_at(i) {
        } else if 0 <= moe_i < self.moe@.len() && self.moe@[moe_i].index == i {
            self.lemma_no_attention(i + 1, i + 1, moe_i + 1, attn_i, None);
            let rest = self.segments_from(i + 1, i + 1, moe_i + 1, attn_i, None);
            assert forall|s: int| #![trigger all[s]] 0 <= s < all.len() implies all[s] !is Attention by {
                if s > 0 {
                    assert(all[s] == rest[s - 1]);
                }
            }
        } else {
            self.lemma_no_attention(i + 1, from, moe_i, attn_i, gather);
        }
    }

    /// Each instruction before the end is in exactly one segment, or it lies between a
    /// flush and its resume and is in none.
    pub proof fn law_each_instruction_once(&self, k: int)
        requires
            self.valid(),
            self.len() <= usize::MAX,
            self.resumes_forward(self.segments()),
            0 <= k < Self::stop(self.segments(), 0),
        ensures
            Self::runs(self.segments(), k) <==> !self.skips(self.segments(), k),
            forall|s: int, t: int|
                #![trigger self.segments()[s], self.segments()[t]]
                0 <= s < self.segments().len() && 0 <= t < self.segments().len() && Self::within(
                    self.segments()[s],
                    k,
                ) && Self::within(self.segments()[t], k) ==> s == t,
    {
        self.law_segments_cover_program();
        let all = self.segments();
        self.lemma_chain_reaches(all, all.len() as int, k);
        assert forall|s: int, t: int|
            0 <= s < all.len() && 0 <= t < all.len() && s != t && Self::within(
                #[trigger] all[s],
                k,
            ) implies !Self::within(#[trigger] all[t], k) && !self.passes_over(all[t], k) by {
            if s < t {
                self.lemma_chain_rises(all, s, t);
            } else {
                self.lemma_chain_rises(all, t, s);
            }
            assert(self.link(all, s) && self.link(all, t));
        }
    }

    proof fn lemma_moe_all_served(
        &self,
        i: int,
        from: int,
        moe_i: int,
        attn_i: int,
        gather: Option<usize>,
    )
        requires
            self.valid(),
            self.len() <= usize::MAX,
            0 <= from <= i <= self.len(),
            0 <= moe_i <= self.moe@.len(),
            0 <= attn_i <= self.attn@.len(),
            self.moe_rises(),
            self.moe_reached(self.segments_from(i, from, moe_i, attn_i, gather), from, moe_i),
            forall|m: int|
                #![trigger self.moe@[m]]
                moe_i <= m < self.moe@.len() ==> i <= self.moe@[m].index,
        ensures
            Self::moe_layers(self.segments_from(i, from, moe_i, attn_i, gather)).len()
                == self.moe@.len() - moe_i,
        decreases self.attn@.len() - attn_i, self.len() - i,
    {
        let all = self.segments_from(i, from, moe_i, attn_i, gather);
        assert(self.attn@.len() == self.attn.len());
        if self.ends_at(i) {
            reveal_with_fuel(P2pProgram::moe_layers, 2);
            if all.len() > 0 {
                assert(all.drop_first() =~= Seq::empty());
            }
            if moe_i < self.moe@.len() {
                assert(i <= self.moe@[moe_i].index < i);
            }
        } else if 0 <= moe_i < self.moe@.len() && self.moe@[moe_i].index == i {
            let rest = self.segments_from(i + 1, i + 1, moe_i + 1, attn_i, None);
            assert(all.drop_first() =~= rest);
            self.lemma_moe_reached(all, rest, from, i + 1, moe_i, moe_i + 1);
            self.lemma_moe_all_served(i + 1, i + 1, moe_i + 1, attn_i, None);
        } else if self.head_parallel && attn_i < self.attn@.len() && self.attn@[attn_i].flush == i {
            let next = self.resume_at(attn_i);
            let rest = self.segments_from(next, next, moe_i, attn_i + 1, Some(attn_i as usize));
            assert(all.drop_first() =~= rest);
            self.lemma_segments_chain(next, next, moe_i, attn_i + 1, Some(attn_i as usize));
            self.lemma_moe_reached(all, rest, from, next, moe_i, moe_i);
            assert forall|m: int|
                #![trigger self.moe@[m]]
                moe_i <= m < self.moe@.len() implies next <= self.moe@[m].index by {
                if self.moe@[m].index < next {
                    assert(self.moe@[moe_i].index <= self.moe@[m].index);
                    assert(self.passes_over(all[0], self.moe@[m].index as int));
                    assert(self.skips(all, self.moe@[m].index as int));
                }
            }
            self.lemma_moe_all_served(next, next, moe_i, attn_i + 1, Some(attn_i as usize));
        } else {
            assert forall|m: int|
                #![trigger self.moe@[m]]
                moe_i <= m < self.moe@.len() implies i + 1 <= self.moe@[m].index by {
                assert(self.moe@[moe_i].index <= self.moe@[m].index);
            }
            self.lemma_moe_all_served(i + 1, from, moe_i, attn_i, gather);
        }
    }

    proof fn lemma_moe_reached(
        &self,
        all: Seq<Segment>,
        rest: Seq<Segment>,
        from: int,
        next: int,
        moe_i: int,
        moe_next: int,
    )
        requires
            0 <= moe_i <= moe_next,
            self.moe_reached(all, from, moe_i),
            all.len() > 0,
            all == seq![all[0]] + rest,
            rest.len() == 0 ==> all[0].to_index() == next,
        ensures
            self.moe_reached(rest, next, moe_next),
    {
        assert(Self::stop(all, from) == Self::stop(rest, next));
        assert forall|m: int|
            #![trigger self.moe@[m]]
            moe_next <= m < self.moe@.len() implies !self.skips(rest, self.moe@[m].index as int) by {
            let k = self.moe@[m].index as int;
            if self.skips(rest, k) {
                let s = choose|s: int| 0 <= s < rest.len() && self.passes_over(#[trigger] rest[s], k);
                assert(all[s + 1] == rest[s]);
                assert(self.skips(all, k));
            }
        }
    }

    /// The expert boundaries stand in the order of their instructions.
    pub open spec fn moe_rises(&self) -> bool {
        forall|a: int, b: int|
            #![trigger self.moe@[a], self.moe@[b]]
            0 <= a < b < self.moe@.len() ==> self.moe@[a].index < self.moe@[b].index
    }

    /// Every expert boundary from number `moe_i` on lies before the end, and none is
    /// passed over.
    pub open spec fn moe_reached(&self, segs: Seq<Segment>, from: int, moe_i: int) -> bool {
        forall|m: int|
            #![trigger self.moe@[m]]
            moe_i <= m < self.moe@.len() ==> self.moe@[m].index < Self::stop(segs, from)
                && !self.skips(segs, self.moe@[m].index as int)
    }

    /// Where the expert boundaries stand in the order of their instructions, all of them
    /// before the end and none passed over, every one of them is served, in order.
    pub proof fn law_moe_all_served(&self)
        requires
            self.valid(),
            self.len() <= usize::MAX,
            self.moe_rises(),
            self.moe_reached(self.segments(), 0, 0),
        ensures
            Self::moe_layers(self.segments()) == self.moe@,
    {
        self.law_moe_served_in_order();
        self.lemma_moe_all_served(0, 0, 0, 0, None);
        assert(self.moe@.take(self.moe@.len() as int) =~= self.moe@);
    }

    /// Expert boundaries are served in their given order, none twice and none
    /// skipped over: what is served is the start of the boundary list.
    pub proof fn law_moe_served_in_order(&self)
        requires
            self.valid(),
            self.len() <= usize::MAX,
        ensures
            ({
                let served = Self::moe_layers(self.segments());
                &&& served.len() <= self.moe@.len()
                &&& served == self.moe@.take(served.len() as int)
            }),
    {
        self.lemma_moe_in_order(0, 0, 0, 0, None);
        let served = Self::moe_layers(self.segments());
        assert(self.moe@.subrange(0, served.len() as int) =~= self.moe@.take(served.len() as int));
    }
}

impl Segment {
    /// The attention whose results GPU 0 collects before a segment.
    pub open spec fn collects(self) -> Option<usize> {
        match self {
            Segment::Moe { gather, .. } => gather,
            Segment::Attention { gather, .. } => gather,
            Segment::Tail { gather, .. } => gather,
        }
    }
}

/// How many of the first `n` segments end in shared attention.
pub open spec fn attentions(segs: Seq<Segment>, n: int) -> nat
    decreases n,
{
    if n <= 0 {
        0
    } else {
        attentions(segs, n - 1) + if segs[n - 1] is Attention {
            1nat
        } else {
            0nat
        }
    }
}

/// Segment `s` collects what the one before attended, and shared attention always has a
/// segment behind it that collects.
pub open spec fn collected(segs: Seq<Segment>, s: int) -> bool {
    match segs[s] {
        Segment::Attention { attn, .. } => s + 1 < segs.len() && segs[s + 1].collects() == Some(
            attn,
        ),
        _ => s + 1 < segs.len() ==> segs[s + 1].collects() is None,
    }
}

impl P2pProgram {
    proof fn lemma_attentions_behind(first: Segment, rest: Seq<Segment>, n: int)
        requires
            0 <= n <= rest.len(),
        ensures
            attentions(seq![first] + rest, n + 1) == attentions(rest, n) + if first is Attention {
                1nat
            } else {
                0nat
            },
        decreases n,
    {
        let all = seq![first] + rest;
        if n == 0 {
            assert(all[0] == first);
            reveal_with_fuel(attentions, 2);
        } else {
            Self::lemma_attentions_behind(first, rest, n - 1);
            assert(all[n] == rest[n - 1]);
        }
    }

    proof fn lemma_collected(
        &self,
        i: int,
        from: int,
        moe_i: int,
        attn_i: int,
        gather: Option<usize>,
    )
        requires
            0 <= attn_i <= self.attn@.len(),
            self.attn@.len() <= usize::MAX,
        ensures
            ({
                let all = self.segments_from(i, from, moe_i, attn_i, gather);
                &&& gather is Some ==> all.len() > 0
                &&& all.len() > 0 ==> all[0].collects() == gather
                &&& forall|s: int|
                    #![trigger all[s]]
                    0 <= s < all.len() ==> collected(all, s) && (all[s] matches Segment::Attention {
                        attn,
                        ..
                    } ==> attn == attn_i + attentions(all, s))
            }),
        decreases self.attn@.len() - attn_i, self.len() - i,
    {
        let all = self.segments_from(i, from, moe_i, attn_i, gather);
        if attn_i < 0 || attn_i > self.attn@.len() || self.ends_at(i) {
        } else if 0 <= moe_i < self.moe@.len() && self.moe@[moe_i].index == i {
            self.lemma_collected(i + 1, i + 1, moe_i + 1, attn_i, None);
            let rest = self.segments_from(i + 1, i + 1, moe_i + 1, attn_i, None);
            self.lemma_collected_behind(all, rest, attn_i, attn_i);
        } else if self.head_parallel && attn_i < self.attn@.len() && self.attn@[attn_i].flush == i {
            let at = self.resume_at(attn_i);
            self.lemma_collected(at, at, moe_i, attn_i + 1, Some(attn_i as usize));
            let rest = self.segments_from(at, at, moe_i, attn_i + 1, Some(attn_i as usize));
            self.lemma_collected_behind(all, rest, attn_i, attn_i + 1);
        } else {
            self.lemma_collected(i + 1, from, moe_i, attn_i, gather);
        }
    }

    /// What holds of the segments behind the first holds of all.
    proof fn lemma_collected_behind(
        &self,
        all: Seq<Segment>,
        rest: Seq<Segment>,
        attn_i: int,
        next: int,
    )
        requires
            all == seq![all[0]] + rest,
            all.len() > 0,
            next == attn_i + if all[0] is Attention {
                1int
            } else {
                0
            },
            all[0] matches Segment::Attention { attn, .. } ==> attn == attn_i,
            collected(all, 0),
            forall|s: int|
                #![trigger rest[s]]
                0 <= s < rest.len() ==> collected(rest, s) && (rest[s] matches Segment::Attention {
                    attn,
                    ..
                } ==> attn == next + attentions(rest, s)),
        ensures
            forall|s: int|
                #![trigger all[s]]
                0 <= s < all.len() ==> collected(all, s) && (all[s] matches Segment::Attention {
                    attn,
                    ..
                } ==> attn == attn_i + attentions(all, s)),
    {
        assert forall|s: int|
            #![trigger all[s]]
            0 <= s < all.len() implies collected(all, s) && (all[s] matches Segment::Attention {
            attn,
            ..
        } ==> attn == attn_i + attentions(all, s)) by {
            if s > 0 {
                assert(all[s] == rest[s - 1]);
                assert(collected(rest, s - 1));
                if s < rest.len() {
                    assert(all[s + 1] == rest[s]);
                }
                Self::lemma_attentions_behind(all[0], rest, s - 1);
            }
        }
    }

    /// The results of every shared attention are collected before the program goes on
    /// behind it, and nowhere else. Attentions are run in order.
    pub proof fn law_attention_collected(&self, s: int)
        requires
            self.attn@.len() <= usize::MAX,
            0 <= s < self.segments().len(),
        ensures
            collected(self.segments(), s),
            self.segments()[0].collects() is None,
            self.segments()[s] matches Segment::Attention { attn, .. } ==> attn == attentions(
                self.segments(),
                s,
            ),
    {
        self.lemma_collected(0, 0, 0, 0, None);
    }
}

impl P2pProgram {
    /// The attention boundaries follow one another, each before instruction `end`, which
    /// nothing halts before, and none at an expert boundary.
    pub open spec fn attention_in_order(&self, end: int) -> bool {
        &&& end <= self.len()
        &&& forall|k: int| 0 <= k < end ==> #[trigger] self.opcodes@[k] != OP_HALT
        &&& forall|a: int|
            #![trigger self.attn@[a]]
            0 <= a < self.attn@.len() ==> self.attn@[a].flush < end && self.attn@[a].flush
                < self.resume_at(a)
        &&& forall|a: int, b: int|
            #![trigger self.attn@[a], self.attn@[b]]
            0 <= a < b < self.attn@.len() ==> self.resume_at(a) <= self.attn@[b].flush
        &&& forall|a: int, m: int|
            #![trigger self.attn@[a], self.moe@[m]]
            0 <= a < self.attn@.len() && 0 <= m < self.moe@.len() ==> self.attn@[a].flush
                != self.moe@[m].index
    }

    proof fn lemma_attention_all_served(
        &self,
        end: int,
        i: int,
        from: int,
        moe_i: int,
        attn_i: int,
        gather: Option<usize>,
    )
        requires
            self.head_parallel,
            self.attention_in_order(end),
            0 <= i,
            0 <= attn_i <= self.attn@.len(),
            forall|a: int|
                #![trigger self.attn@[a]]
                attn_i <= a < self.attn@.len() ==> i <= self.attn@[a].flush,
        ensures
            ({
                let all = self.segments_from(i, from, moe_i, attn_i, gather);
                attentions(all, all.len() as int) == self.attn@.len() - attn_i
            }),
        decreases self.attn@.len() - attn_i, self.len() - i,
    {
        let all = self.segments_from(i, from, moe_i, attn_i, gather);
        if self.ends_at(i) {
            reveal_with_fuel(attentions, 2);
            if attn_i < self.attn@.len() {
                assert(i <= self.attn@[attn_i].flush < end);
                assert(self.opcodes@[i] != OP_HALT);
            }
        } else if 0 <= moe_i < self.moe@.len() && self.moe@[moe_i].index == i {
            let rest = self.segments_from(i + 1, i + 1, moe_i + 1, attn_i, None);
            assert forall|a: int|
                #![trigger self.attn@[a]]
                attn_i <= a < self.attn@.len() implies i + 1 <= self.attn@[a].flush by {
                assert(self.attn@[a].flush != self.moe@[moe_i].index);
            }
            self.lemma_attention_all_served(end, i + 1, i + 1, moe_i + 1, attn_i, None);
            assert(all == seq![all[0]] + rest);
            Self::lemma_attentions_behind(all[0], rest, rest.len() as int);
        } else if attn_i < self.attn@.len() && self.attn@[attn_i].flush == i {
            let at = self.resume_at(attn_i);
            let rest = self.segments_from(at, at, moe_i, attn_i + 1, Some(attn_i as usize));
            self.lemma_attention_all_served(
                end,
                at,
                at,
                moe_i,
                attn_i + 1,
                Some(attn_i as usize),
            );
            assert(all == seq![all[0]] + rest);
            Self::lemma_attentions_behind(all[0], rest, rest.len() as int);
        } else {
            assert forall|a: int|
                #![trigger self.attn@[a]]
                attn_i <= a < self.attn@.len() implies i + 1 <= self.attn@[a].flush by {
                if a > attn_i {
                    assert(self.attn@[attn_i].flush < self.resume_at(attn_i)
                        <= self.attn@[a].flush);
                }
            }
            self.lemma_attention_all_served(end, i + 1, from, moe_i, attn_i, gather);
        }
    }

    /// Where attention is shared and its boundaries follow one another in the part of the
    /// program that runs, all of them are run by all GPUs.
    pub proof fn law_attention_all_served(&self, end: int)
        requires
            self.head_parallel,
            self.attention_in_order(end),
        ensures
            attentions(self.segments(), self.segments().len() as int) == self.attn@.len(),
    {
        self.lemma_attention_all_served(end, 0, 0, 0, 0, None);
    }
}

} // verus!
