//! What spreading experts over GPUs leaves in the GPUs' buffers.

use vstd::prelude::*;
use crate::arith;
use crate::moe_weights::distribute;
use crate::moe_weights::distribute::{ExpertBuffer, ExpertMove, PackedMove};
use crate::moe_weights::names::{ExpertPart, MoeName};
use crate::tensors::PackedIndex;

verus! {

/// Bytes of the GPUs' expert buffers: by GPU, buffer and address.
pub type Bytes<V> = spec_fn(int, ExpertBuffer, int) -> V;

/// The buffers after `bytes` bytes from `from` on were written at `dst`.
pub open spec fn filled<V>(
    s: Bytes<V>,
    gpu: int,
    into: ExpertBuffer,
    dst: int,
    bytes: int,
    from: spec_fn(int) -> V,
) -> Bytes<V> {
    |g: int, b: ExpertBuffer, x: int|
        if g == gpu && b == into && dst <= x < dst + bytes {
            from(x - dst)
        } else {
            s(g, b, x)
        }
}

// ---- experts that were loaded on the first GPU ----

/// The buffers after the moves, where `loaded` is what the first GPU holds.
pub open spec fn moved<V>(
    s: Bytes<V>,
    loaded: spec_fn(ExpertBuffer, int) -> V,
    moves: Seq<ExpertMove>,
) -> Bytes<V>
    decreases moves.len(),
{
    if moves.len() == 0 {
        s
    } else {
        let m = moves.last();
        let t = filled(
            moved(s, loaded, moves.drop_last()),
            m.gpu as int,
            ExpertBuffer::GateUp,
            m.gate_up.dst as int,
            m.gate_up.bytes as int,
            |i: int| loaded(ExpertBuffer::GateUp, m.gate_up.src + i),
        );
        filled(
            t,
            m.gpu as int,
            ExpertBuffer::Down,
            m.down.dst as int,
            m.down.bytes as int,
            |i: int| loaded(ExpertBuffer::Down, m.down.src + i),
        )
    }
}

/// Every expert that leaves the first GPU arrives as a whole, in the slot of its home that
/// the placement gives it; experts lie in the loaded matrices one after the other.
pub proof fn law_loaded_experts_arrive<V>(
    s: Bytes<V>,
    loaded: spec_fn(ExpertBuffer, int) -> V,
    ne: nat,
    gu: nat,
    down: nat,
    start: int,
    num: int,
    e: int,
    i: int,
)
    requires
        0 <= start < num <= usize::MAX,
        ne <= usize::MAX,
        ne * gu <= usize::MAX,
        ne * down <= usize::MAX,
        0 <= e < ne,
        distribute::home(e, start, num) != 0,
    ensures
        ({
            let t = moved(s, loaded, distribute::ref_moves(ne as int, gu, down, start, num));
            let gpu = distribute::home(e, start, num);
            let at = distribute::slot(e, start, num);
            &&& 0 <= i < gu ==> t(gpu, ExpertBuffer::GateUp, at * gu + i) == loaded(
                ExpertBuffer::GateUp,
                e * gu + i,
            )
            &&& 0 <= i < down ==> t(gpu, ExpertBuffer::Down, at * down + i) == loaded(
                ExpertBuffer::Down,
                e * down + i,
            )
        }),
    decreases ne,
{
    let k = ne - 1;
    let gpu = distribute::home(e, start, num);
    let at = distribute::slot(e, start, num) as int;
    let list = distribute::ref_moves(ne as int, gu, down, start, num);
    let rest = distribute::ref_moves(k, gu, down, start, num);
    distribute::law_home_and_slot(k, start, num);
    distribute::law_home_and_slot(e, start, num);
    lemma_slot_small(k, start, num);
    let last = distribute::slot(k, start, num) as int;
    arith::lemma_scaled_index(k, ne as int, gu as int);
    arith::lemma_scaled_index(k, ne as int, down as int);
    arith::lemma_mul_mono(last, k, gu as int);
    arith::lemma_mul_mono(last, k, down as int);
    arith::lemma_mul_mono(0, last, gu as int);
    arith::lemma_mul_mono(0, last, down as int);
    if distribute::home(k, start, num) != 0 {
        assert(list.drop_last() =~= rest);
    }
    if e < k {
        law_loaded_experts_arrive(s, loaded, k as nat, gu, down, start, num, e, i);
        if distribute::home(k, start, num) == gpu {
            distribute::law_slots_distinct(e, k, start, num);
            lemma_apart(at, last, gu as int, i);
            lemma_apart(at, last, down as int, i);
        }
    }
}

/// Places in different slots are apart.
proof fn lemma_apart(a: int, b: int, width: int, i: int)
    requires
        a != b,
    ensures
        0 <= i < width ==> !(b * width <= a * width + i < b * width + width),
{
    if 0 <= i < width {
        if a < b {
            assert(a * width + width <= b * width) by (nonlinear_arith)
                requires
                    a + 1 <= b,
                    0 < width,
            ;
        } else {
            assert(b * width + width <= a * width) by (nonlinear_arith)
                requires
                    b + 1 <= a,
                    0 < width,
            ;
        }
    }
}

/// A slot's number is at most its expert's.
proof fn lemma_slot_small(e: int, start: int, num: int)
    requires
        e >= 0,
        0 <= start < num,
    ensures
        distribute::slot(e, start, num) <= e,
{
    distribute::law_home_and_slot(e, start, num);
    let w = num - start;
    vstd::arithmetic::div_mod::lemma_fundamental_div_mod(e, w);
    vstd::arithmetic::div_mod::lemma_mod_bound(e, w);
    let q = e / w;
    assert(q <= e) by (nonlinear_arith)
        requires
            e == w * q + e % w,
            0 <= e % w,
            w >= 1,
            e >= 0,
    ;
}

// ---- experts of an archive ----

/// The buffers after the pieces were read, where `tensor` gives the archive's bytes.
pub open spec fn read_in<V>(
    s: Bytes<V>,
    tensor: spec_fn(MoeName, int) -> V,
    moves: Seq<PackedMove>,
) -> Bytes<V>
    decreases moves.len(),
{
    if moves.len() == 0 {
        s
    } else {
        let m = moves.last();
        filled(
            read_in(s, tensor, moves.drop_last()),
            m.gpu as int,
            m.into,
            m.dst as int,
            m.bytes as int,
            |i: int| tensor(m.name, m.src + i),
        )
    }
}

proof fn lemma_read_joined<V>(
    s: Bytes<V>,
    tensor: spec_fn(MoeName, int) -> V,
    a: Seq<PackedMove>,
    b: Seq<PackedMove>,
)
    ensures
        read_in(s, tensor, a + b) == read_in(read_in(s, tensor, a), tensor, b),
    decreases b.len(),
{
    if b.len() == 0 {
        assert(a + b =~= a);
    } else {
        lemma_read_joined(s, tensor, a, b.drop_last());
        assert((a + b).drop_last() =~= a + b.drop_last());
    }
}

/// Byte `i` of each matrix of expert `e` is in the expert's slot. The archive has one tensor
/// per matrix, or tensors of all experts.
pub open spec fn in_slot<V>(
    t: Bytes<V>,
    tensor: spec_fn(MoeName, int) -> V,
    index: &PackedIndex,
    p: Seq<char>,
    gated: bool,
    gu: nat,
    down: nat,
    start: int,
    num: int,
    e: int,
    i: int,
) -> bool {
    let gpu = distribute::home(e, start, num);
    let at = distribute::slot(e, start, num) * gu;
    let down_at = distribute::slot(e, start, num) * down;
    let size = |part: ExpertPart|
        index.lookup(distribute::bare(part, e).full(p))->0.data_bytes as int;
    if distribute::is_fused(index, p) {
        &&& 0 <= i < gu ==> t(gpu, ExpertBuffer::GateUp, at + i) == tensor(
            MoeName::BareFusedGateUp,
            e * gu + i,
        )
        &&& 0 <= i < down ==> t(gpu, ExpertBuffer::Down, down_at + i) == tensor(
            MoeName::BareFusedDown,
            e * down + i,
        )
    } else {
        let up_at = if gated {
            at + size(ExpertPart::Gate)
        } else {
            at as int
        };
        &&& gated && 0 <= i < size(ExpertPart::Gate) ==> t(gpu, ExpertBuffer::GateUp, at + i)
            == tensor(distribute::bare(ExpertPart::Gate, e), i)
        &&& 0 <= i < size(ExpertPart::Up) ==> t(gpu, ExpertBuffer::GateUp, up_at + i) == tensor(
            distribute::bare(ExpertPart::Up, e),
            i,
        )
        &&& 0 <= i < size(ExpertPart::Down) ==> t(gpu, ExpertBuffer::Down, down_at + i) == tensor(
            distribute::bare(ExpertPart::Down, e),
            i,
        )
    }
}

/// The archive tells usable sizes, the same for all experts.
pub open spec fn archive_ok(index: &PackedIndex, p: Seq<char>, ne: nat, gated: bool) -> bool {
    &&& ne <= usize::MAX
    &&& index.lookup(distribute::size_probe(index, p).full(p)) is Some
    &&& index.lookup(distribute::down_probe(index, p).full(p)) is Some
    &&& index.lookup(distribute::format_probe(index, p).full(p)) is Some
    &&& index.lookup(distribute::format_probe(index, p).full(p))->0.format is Some
    &&& distribute::sizes_usable(index, p, ne, gated)
    &&& distribute::uniform(index, p, ne as int)
}

/// One expert's pieces fill its slot and touch no other.
proof fn lemma_expert_read<V>(
    s: Bytes<V>,
    tensor: spec_fn(MoeName, int) -> V,
    index: &PackedIndex,
    p: Seq<char>,
    ne: nat,
    gated: bool,
    start: int,
    num: int,
    e: int,
)
    requires
        archive_ok(index, p, ne, gated),
        0 <= start < num <= usize::MAX,
        0 <= e < ne,
        ({
            let gu = distribute::gate_up_bytes(index, p, ne, gated);
            let down = distribute::down_bytes(index, p, ne);
            distribute::expert_moves(index, p, e, gated, gu, down, start, num) is Ok
        }),
    ensures
        ({
            let gu = distribute::gate_up_bytes(index, p, ne, gated);
            let down = distribute::down_bytes(index, p, ne);
            let list = distribute::expert_moves(index, p, e, gated, gu, down, start, num)->Ok_0;
            let t = read_in(s, tensor, list);
            let gpu = distribute::home(e, start, num);
            let at = distribute::slot(e, start, num) as int;
            &&& forall|i: int| #[trigger]
                in_slot(t, tensor, index, p, gated, gu, down, start, num, e, i)
            &&& forall|g: int, b: ExpertBuffer, x: int|
                !(g == gpu && b == ExpertBuffer::GateUp && at * gu <= x < at * gu + gu) && !(g
                    == gpu && b == ExpertBuffer::Down && at * down <= x < at * down + down)
                    ==> #[trigger] t(g, b, x) == s(g, b, x)
        }),
{
    let gu = distribute::gate_up_bytes(index, p, ne, gated);
    let down = distribute::down_bytes(index, p, ne);
    let list = distribute::expert_moves(index, p, e, gated, gu, down, start, num)->Ok_0;
    distribute::law_home_and_slot(e, start, num);
    lemma_slot_small(e, start, num);
    let at = distribute::slot(e, start, num) as int;
    arith::lemma_scaled_index(e, ne as int, gu as int);
    arith::lemma_scaled_index(e, ne as int, down as int);
    arith::lemma_mul_mono(at, e, gu as int);
    arith::lemma_mul_mono(at, e, down as int);
    arith::lemma_mul_mono(0, at, gu as int);
    arith::lemma_mul_mono(0, at, down as int);
    reveal_with_fuel(read_in, 4);
    if distribute::is_fused(index, p) {
        assert(list.drop_last() =~= seq![list[0]]);
        assert(seq![list[0]].drop_last() =~= Seq::empty());
    } else {
        assert(index.lookup(distribute::bare(ExpertPart::Up, e).full(p)) is Some);
        assert(index.lookup(distribute::bare(ExpertPart::Down, e).full(p)) is Some);
        if gated {
            assert(index.lookup(distribute::bare(ExpertPart::Gate, e).full(p)) is Some);
            assert(list.drop_last() =~= seq![list[0], list[1]]);
            assert(seq![list[0], list[1]].drop_last() =~= seq![list[0]]);
            assert(seq![list[0]].drop_last() =~= Seq::empty());
        } else {
            assert(list.drop_last() =~= seq![list[0]]);
            assert(seq![list[0]].drop_last() =~= Seq::empty());
        }
    }
}

/// Every expert of an archive arrives in the slot of its home that the placement gives it:
/// its gate matrix, where it has one, then its up matrix, and its down matrix in the other
/// buffer.
pub proof fn law_packed_experts_arrive<V>(
    s: Bytes<V>,
    tensor: spec_fn(MoeName, int) -> V,
    index: &PackedIndex,
    p: Seq<char>,
    ne: nat,
    gated: bool,
    start: int,
    num: int,
    n: nat,
    e: int,
    i: int,
)
    requires
        archive_ok(index, p, ne, gated),
        0 <= start < num <= usize::MAX,
        0 <= e < n <= ne,
    ensures
        ({
            let gu = distribute::gate_up_bytes(index, p, ne, gated);
            let down = distribute::down_bytes(index, p, ne);
            distribute::packed_moves(index, p, n as int, gated, gu, down, start, num) matches Ok(
                list,
            ) ==> in_slot(
                read_in(s, tensor, list),
                tensor,
                index,
                p,
                gated,
                gu,
                down,
                start,
                num,
                e,
                i,
            )
        }),
    decreases n,
{
    let gu = distribute::gate_up_bytes(index, p, ne, gated);
    let down = distribute::down_bytes(index, p, ne);
    let k = n - 1;
    if distribute::packed_moves(index, p, n as int, gated, gu, down, start, num) is Ok {
        let done = distribute::packed_moves(index, p, k, gated, gu, down, start, num)->Ok_0;
        let more = distribute::expert_moves(index, p, k, gated, gu, down, start, num)->Ok_0;
        lemma_read_joined(s, tensor, done, more);
        let before = read_in(s, tensor, done);
        lemma_expert_read(before, tensor, index, p, ne, gated, start, num, k);
        let t = read_in(before, tensor, more);
        if e < k {
            law_packed_experts_arrive(
                s,
                tensor,
                index,
                p,
                ne,
                gated,
                start,
                num,
                k as nat,
                e,
                i,
            );
            lemma_all_found(index, p, k, gated, gu, down, start, num, e);
            lemma_slot_kept(before, t, tensor, index, p, ne, gated, start, num, e, k, i);
        } else {
            assert(in_slot(t, tensor, index, p, gated, gu, down, start, num, e, i));
        }
    }
}

/// Where the pieces of all experts were found, those of each were.
proof fn lemma_all_found(
    index: &PackedIndex,
    p: Seq<char>,
    n: int,
    gated: bool,
    gu: nat,
    down: nat,
    start: int,
    num: int,
    e: int,
)
    requires
        distribute::packed_moves(index, p, n, gated, gu, down, start, num) is Ok,
        0 <= e < n,
    ensures
        distribute::expert_moves(index, p, e, gated, gu, down, start, num) is Ok,
    decreases n,
{
    if e < n - 1 {
        lemma_all_found(index, p, n - 1, gated, gu, down, start, num, e);
    }
}

/// Filling another expert's slot leaves an expert as it is.
proof fn lemma_slot_kept<V>(
    s: Bytes<V>,
    t: Bytes<V>,
    tensor: spec_fn(MoeName, int) -> V,
    index: &PackedIndex,
    p: Seq<char>,
    ne: nat,
    gated: bool,
    start: int,
    num: int,
    e: int,
    k: int,
    i: int,
)
    requires
        archive_ok(index, p, ne, gated),
        0 <= start < num <= usize::MAX,
        0 <= e < k < ne,
        ({
            let gu = distribute::gate_up_bytes(index, p, ne, gated);
            let down = distribute::down_bytes(index, p, ne);
            let gpu = distribute::home(k, start, num);
            let at = distribute::slot(k, start, num) as int;
            &&& in_slot(s, tensor, index, p, gated, gu, down, start, num, e, i)
            &&& distribute::expert_moves(index, p, e, gated, gu, down, start, num) is Ok
            &&& forall|g: int, b: ExpertBuffer, x: int|
                !(g == gpu && b == ExpertBuffer::GateUp && at * gu <= x < at * gu + gu) && !(g
                    == gpu && b == ExpertBuffer::Down && at * down <= x < at * down + down)
                    ==> #[trigger] t(g, b, x) == s(g, b, x)
        }),
    ensures
        in_slot(
            t,
            tensor,
            index,
            p,
            gated,
            distribute::gate_up_bytes(index, p, ne, gated),
            distribute::down_bytes(index, p, ne),
            start,
            num,
            e,
            i,
        ),
{
    let gu = distribute::gate_up_bytes(index, p, ne, gated) as int;
    let down = distribute::down_bytes(index, p, ne) as int;
    let (a, b) = (
        distribute::slot(e, start, num) as int,
        distribute::slot(k, start, num) as int,
    );
    distribute::law_slots_distinct(e, k, start, num);
    if distribute::home(e, start, num) == distribute::home(k, start, num) {
        lemma_apart(a, b, gu, i);
        lemma_apart(a, b, down, i);
        if !distribute::is_fused(index, p) {
            assert(index.lookup(distribute::bare(ExpertPart::Up, e).full(p)) is Some);
            assert(index.lookup(distribute::bare(ExpertPart::Down, e).full(p)) is Some);
            if gated {
                assert(index.lookup(distribute::bare(ExpertPart::Gate, e).full(p)) is Some);
                let g = index.lookup(
                    distribute::bare(ExpertPart::Gate, e).full(p),
                )->0.data_bytes as int;
                lemma_apart(a, b, gu, g + i);
            }
        }
    }
}

} // verus!
