//! Per-opcode cycle counters: slot layout, opcode names and the statistics read
//! from a counter dump.

use vstd::prelude::*;

verus! {

/// Counter slots; opcodes fit with room to spare.
pub const NUM_SLOTS: usize = 64;

/// Where workers report their counters, process-wide. Address 0 means profiling is
/// off.
pub struct ProfileGlobal {
    pub ptr: u64,
}

/// The counters of one GPU, by device address.
pub struct OpProfile {
    counters: u64,
}

impl OpProfile {
    pub closed spec fn address(&self) -> u64 {
        self.counters
    }

    /// Words of the counter buffer: ticks and calls for every slot.
    pub fn counter_words() -> (r: usize)
        ensures
            r == 2 * NUM_SLOTS,
    {
        2 * NUM_SLOTS
    }

    /// Counters that were allocated and cleared at `counters`.
    pub fn at_address(counters: u64) -> (r: Self)
        ensures
            r.address() == counters,
    {
        OpProfile { counters }
    }

    /// Device address workers count into.
    pub fn device_ptr(&self) -> (r: u64)
        ensures
            r == self.address(),
    {
        self.counters
    }
}

/// Turns profiling on: workers launched from now on count into `profile`.
pub fn install_global(global: &mut ProfileGlobal, profile: &OpProfile)
    ensures
        final(global).ptr == profile.address(),
{
    global.ptr = profile.device_ptr();
}

/// Turns profiling off.
pub fn uninstall_global(global: &mut ProfileGlobal)
    ensures
        final(global).ptr == 0,
{
    global.ptr = 0;
}

/// Where workers report now; 0 when profiling is off.
pub fn get_global(global: &ProfileGlobal) -> (r: u64)
    ensures
        r == global.ptr,
{
    global.ptr
}

/// The name of an opcode.
pub open spec fn opcode_label(op: u32) -> Seq<char> {
    match op {
        0 => "OP_HALT"@,
        1 => "OP_BARRIER"@,
        2 => "OP_LINEAR_PROJ"@,
        3 => "OP_RMSNORM"@,
        4 => "OP_CONV1D"@,
        5 => "OP_GDN_GATE"@,
        6 => "OP_GDN_RECUR"@,
        7 => "OP_RMSNORM_GATE"@,
        8 => "OP_RESIDUAL_ADD"@,
        9 => "OP_QK_NORM"@,
        10 => "OP_MROPE"@,
        11 => "OP_GQA_ATTN"@,
        12 => "OP_OUTPUT_GATE"@,
        13 => "OP_FFN_GATE_UP"@,
        14 => "OP_FFN_DOWN_RES"@,
        15 => "OP_EMBEDDING"@,
        16 => "OP_LM_HEAD"@,
        17 => "OP_D2D_COPY"@,
        18 => "OP_ATTN_PAGED"@,
        19 => "OP_ATTN_PREFILL"@,
        20 => "OP_DEINTERLEAVE"@,
        21 => "OP_KV_QUANTIZE"@,
        22 => "OP_ATTN_PAGED_Q"@,
        23 => "OP_MOE_GATE"@,
        24 => "OP_MOE_FFN"@,
        25 => "OP_LINEAR_PROJ_RNF4"@,
        26 => "OP_LINEAR_PROJ_PCG32"@,
        27 => "OP_RMSNORM_WX"@,
        28 => "OP_SILU_MUL"@,
        29 => "OP_FFN_GATE_UP_RNF4"@,
        30 => "OP_FFN_DOWN_RES_RNF4"@,
        31 => "OP_SIGMOID_WEIGHTED_ADD"@,
        32 => "OP_SCALE_ADD"@,
        33 => "OP_RELU_SQ"@,
        34 => "OP_MAMBA2_CONV1D"@,
        35 => "OP_SSM_UPDATE"@,
        36 => "OP_MAMBA2_NORM_GATED"@,
        37 => "OP_CONV1D_3X"@,
        38 => "OP_FFN_GATE_UP_WX"@,
        39 => "OP_FFN_GATE_UP_RNF4_WX"@,
        40 => "OP_LINEAR_PROJ_2X"@,
        41 => "OP_MOE_DISPATCH"@,
        42 => "OP_MOE_DISPATCH_POST"@,
        43 => "OP_MOE_FFN_REMOTE"@,
        _ => "OP_UNKNOWN"@,
    }
}

/// The name of an opcode; unknown ones share a name.
pub fn opcode_name(op: u32) -> (r: &'static str)
    ensures
        r@ == opcode_label(op),
{
    match op {
        0 => "OP_HALT",
        1 => "OP_BARRIER",
        2 => "OP_LINEAR_PROJ",
        3 => "OP_RMSNORM",
        4 => "OP_CONV1D",
        5 => "OP_GDN_GATE",
        6 => "OP_GDN_RECUR",
        7 => "OP_RMSNORM_GATE",
        8 => "OP_RESIDUAL_ADD",
        9 => "OP_QK_NORM",
        10 => "OP_MROPE",
        11 => "OP_GQA_ATTN",
        12 => "OP_OUTPUT_GATE",
        13 => "OP_FFN_GATE_UP",
        14 => "OP_FFN_DOWN_RES",
        15 => "OP_EMBEDDING",
        16 => "OP_LM_HEAD",
        17 => "OP_D2D_COPY",
        18 => "OP_ATTN_PAGED",
        19 => "OP_ATTN_PREFILL",
        20 => "OP_DEINTERLEAVE",
        21 => "OP_KV_QUANTIZE",
        22 => "OP_ATTN_PAGED_Q",
        23 => "OP_MOE_GATE",
        24 => "OP_MOE_FFN",
        25 => "OP_LINEAR_PROJ_RNF4",
        26 => "OP_LINEAR_PROJ_PCG32",
        27 => "OP_RMSNORM_WX",
        28 => "OP_SILU_MUL",
        29 => "OP_FFN_GATE_UP_RNF4",
        30 => "OP_FFN_DOWN_RES_RNF4",
        31 => "OP_SIGMOID_WEIGHTED_ADD",
        32 => "OP_SCALE_ADD",
        33 => "OP_RELU_SQ",
        34 => "OP_MAMBA2_CONV1D",
        35 => "OP_SSM_UPDATE",
        36 => "OP_MAMBA2_NORM_GATED",
        37 => "OP_CONV1D_3X",
        38 => "OP_FFN_GATE_UP_WX",
        39 => "OP_FFN_GATE_UP_RNF4_WX",
        40 => "OP_LINEAR_PROJ_2X",
        41 => "OP_MOE_DISPATCH",
        42 => "OP_MOE_DISPATCH_POST",
        43 => "OP_MOE_FFN_REMOTE",
        _ => "OP_UNKNOWN",
    }
}

/// Counters of one opcode.
#[derive(Clone, Copy, Debug)]
pub struct OpStats {
    pub opcode: u32,
    pub name: &'static str,
    pub calls: u64,
    pub ticks_total: u64,
}

impl OpStats {
    /// These are the counters of `op` in the dump `raw`.
    pub open spec fn is_row(&self, raw: Seq<u64>, op: int) -> bool {
        &&& self.opcode == op
        &&& self.name@ == opcode_label(op as u32)
        &&& self.ticks_total == raw[2 * op]
        &&& self.calls == raw[2 * op + 1]
    }
}

/// The opcodes below `count` that were called, in order.
pub open spec fn called_ops(raw: Seq<u64>, count: nat) -> Seq<int>
    decreases count,
{
    if count == 0 {
        Seq::empty()
    } else {
        let rest = called_ops(raw, (count - 1) as nat);
        if raw[2 * (count - 1) + 1] == 0 {
            rest
        } else {
            rest.push(count - 1)
        }
    }
}

impl OpProfile {
    /// Statistics of every opcode that was called, from a dump of the counters.
    pub fn dump_after_shutdown(raw: &[u64]) -> (r: Vec<OpStats>)
        requires
            raw@.len() >= 2 * NUM_SLOTS,
        ensures
            r@.len() == called_ops(raw@, NUM_SLOTS as nat).len(),
            forall|i: int|
                0 <= i < r@.len() ==> (#[trigger] r@[i]).is_row(
                    raw@,
                    called_ops(raw@, NUM_SLOTS as nat)[i],
                ),
    {
        let mut out: Vec<OpStats> = Vec::new();
        let mut op: usize = 0;
        while op < NUM_SLOTS
            invariant
                op <= NUM_SLOTS,
                raw@.len() >= 2 * NUM_SLOTS,
                out@.len() == called_ops(raw@, op as nat).len(),
                forall|i: int|
                    0 <= i < out@.len() ==> (#[trigger] out@[i]).is_row(
                        raw@,
                        called_ops(raw@, op as nat)[i],
                    ),
            decreases NUM_SLOTS - op,
        {
            let ticks_total: u64 = raw[2 * op];
            let calls: u64 = raw[2 * op + 1];
            let ghost before = out@;
            if calls != 0 {
                out.push(
                    OpStats { opcode: op as u32, name: opcode_name(op as u32), calls, ticks_total },
                );
            }
            proof {
                let prev = called_ops(raw@, op as nat);
                let next = called_ops(raw@, (op + 1) as nat);
                assert forall|i: int| 0 <= i < out@.len() implies (#[trigger] out@[i]).is_row(
                    raw@,
                    next[i],
                ) by {
                    if i < before.len() {
                        assert(out@[i] == before[i]);
                        assert(next[i] == prev[i]);
                    }
                }
            }
            op += 1;
        }
        out
    }
}

/// Ticks of the first `count` rows.
pub open spec fn ticks_sum(stats: Seq<OpStats>, count: nat) -> nat
    decreases count,
{
    if count == 0 {
        0
    } else {
        ticks_sum(stats, (count - 1) as nat) + stats[count - 1].ticks_total as nat
    }
}

proof fn lemma_ticks_sum_mono(stats: Seq<OpStats>, a: nat, b: nat)
    requires
        a <= b,
    ensures
        ticks_sum(stats, a) <= ticks_sum(stats, b),
    decreases b,
{
    if a < b {
        lemma_ticks_sum_mono(stats, a, (b - 1) as nat);
    }
}

/// Ticks of all rows together.
pub fn total_ticks(stats: &[OpStats]) -> (r: u64)
    requires
        ticks_sum(stats@, stats@.len()) <= u64::MAX,
    ensures
        r == ticks_sum(stats@, stats@.len()),
{
    let mut total: u64 = 0;
    let mut i: usize = 0;
    while i < stats.len()
        invariant
            i <= stats@.len(),
            ticks_sum(stats@, stats@.len()) <= u64::MAX,
            total == ticks_sum(stats@, i as nat),
        decreases stats@.len() - i,
    {
        proof {
            lemma_ticks_sum_mono(stats@, (i + 1) as nat, stats@.len());
        }
        total = total + stats[i].ticks_total;
        i += 1;
    }
    total
}

/// `order` lists each of the first `count` rows once, most ticks first, rows with
/// equal ticks in their given order.
pub open spec fn is_table_order(stats: Seq<OpStats>, order: Seq<usize>, count: nat) -> bool {
    &&& order.len() == count
    &&& order.no_duplicates()
    &&& forall|i: int| 0 <= i < order.len() ==> (#[trigger] order[i]) < count
    &&& forall|i: int, j: int|
        0 <= i < j < order.len() ==> {
            let a = stats[#[trigger] order[i] as int].ticks_total;
            let b = stats[#[trigger] order[j] as int].ticks_total;
            a > b || (a == b && order[i] < order[j])
        }
}

/// The order in which a table lists the rows.
pub fn table_order(stats: &[OpStats]) -> (order: Vec<usize>)
    ensures
        is_table_order(stats@, order@, stats@.len()),
{
    let mut order: Vec<usize> = Vec::new();
    let mut k: usize = 0;
    while k < stats.len()
        invariant
            k <= stats@.len(),
            is_table_order(stats@, order@, k as nat),
        decreases stats@.len() - k,
    {
        let key: u64 = stats[k].ticks_total;
        let ghost before = order@;
        let mut pos: usize = 0;
        while pos < order.len() && stats[order[pos]].ticks_total >= key
            invariant
                pos <= order@.len(),
                k < stats@.len(),
                key == stats@[k as int].ticks_total,
                order@ == before,
                is_table_order(stats@, before, k as nat),
                forall|i: int| 0 <= i < pos ==> stats@[#[trigger] before[i] as int].ticks_total >= key,
            ensures
                pos <= order@.len(),
                order@ == before,
                forall|i: int| 0 <= i < pos ==> stats@[#[trigger] before[i] as int].ticks_total >= key,
                pos < before.len() ==> stats@[before[pos as int] as int].ticks_total < key,
            decreases order@.len() - pos,
        {
            pos += 1;
        }
        order.insert(pos, k);
        proof {
            let after = order@;
            assert(after == before.insert(pos as int, k));
            assert forall|i: int| 0 <= i < after.len() implies (#[trigger] after[i]) < k + 1 by {
                if i < pos {
                    assert(after[i] == before[i]);
                } else if i > pos {
                    assert(after[i] == before[i - 1]);
                }
            }
            assert forall|i: int, j: int| 0 <= i < j < after.len() implies after[i] != after[j] by {
                let bi = if i < pos { before[i] } else if i > pos { before[i - 1] } else { k };
                let bj = if j < pos { before[j] } else if j > pos { before[j - 1] } else { k };
                assert(after[i] == bi && after[j] == bj);
            }
            assert forall|i: int, j: int| 0 <= i < j < after.len() implies {
                let a = stats@[#[trigger] after[i] as int].ticks_total;
                let b = stats@[#[trigger] after[j] as int].ticks_total;
                a > b || (a == b && after[i] < after[j])
            } by {
                if j < pos {
                    assert(after[i] == before[i] && after[j] == before[j]);
                } else if i < pos && j == pos {
                    assert(after[i] == before[i]);
                } else if i < pos && j > pos {
                    assert(after[i] == before[i] && after[j] == before[j - 1]);
                } else if i == pos {
                    assert(after[j] == before[j - 1]);
                } else {
                    assert(after[i] == before[i - 1] && after[j] == before[j - 1]);
                }
            }
        }
        k += 1;
    }
    order
}

/// Exactly the opcodes that were called are listed, in ascending order.
pub proof fn law_called_listed(raw: Seq<u64>, count: nat)
    ensures
        ({
            let listed = called_ops(raw, count);
            &&& forall|op: int| #[trigger]
                listed.contains(op) <==> 0 <= op < count && raw[2 * op + 1] > 0
            &&& forall|i: int, j: int|
                0 <= i < j < listed.len() ==> #[trigger] listed[i] < #[trigger] listed[j]
        }),
    decreases count,
{
    if count > 0 {
        law_called_listed(raw, (count - 1) as nat);
        let rest = called_ops(raw, (count - 1) as nat);
        let listed = called_ops(raw, count);
        assert forall|op: int| #[trigger] listed.contains(op) <==> 0 <= op < count && raw[2 * op
            + 1] > 0 by {
            if listed.contains(op) {
                let k = listed.index_of(op);
                if k < rest.len() {
                    assert(rest[k] == op);
                    assert(rest.contains(op));
                }
            }
            if 0 <= op < count && raw[2 * op + 1] > 0 {
                if op < count - 1 {
                    assert(rest.contains(op));
                    assert(listed[rest.index_of(op)] == op);
                } else {
                    assert(listed[rest.len() as int] == op);
                }
            }
        }
        assert forall|i: int, j: int| 0 <= i < j < listed.len() implies #[trigger] listed[i]
            < #[trigger] listed[j] by {
            assert(rest.contains(rest[i]));
            if j < rest.len() {
                assert(rest[i] < rest[j]);
            }
        }
    }
}

/// The ticks of two tables together are those of the joined table.
pub proof fn law_ticks_add_up(first: Seq<OpStats>, second: Seq<OpStats>, n: nat)
    requires
        n <= second.len(),
    ensures
        ticks_sum(first + second, first.len() + n) == ticks_sum(first, first.len()) + ticks_sum(
            second,
            n,
        ),
        n > 0 ==> ticks_sum(second, n) >= second[n - 1].ticks_total,
    decreases n,
{
    if n == 0 {
        lemma_ticks_prefix(first, second, first.len());
    } else {
        law_ticks_add_up(first, second, (n - 1) as nat);
        assert((first + second)[first.len() + n - 1] == second[n - 1]);
    }
}

proof fn lemma_ticks_prefix(first: Seq<OpStats>, second: Seq<OpStats>, n: nat)
    requires
        n <= first.len(),
    ensures
        ticks_sum(first + second, n) == ticks_sum(first, n),
    decreases n,
{
    if n > 0 {
        lemma_ticks_prefix(first, second, (n - 1) as nat);
        assert((first + second)[n - 1] == first[n - 1]);
    }
}

} // verus!
